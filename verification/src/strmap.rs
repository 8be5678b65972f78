//! String-keyed maps kept in ascending key order (the order `BTreeMap<String, _>`
//! iterates in: lexicographic by character).
use vstd::prelude::*;
use crate::text::str_to_chars;

verus! {

/// Lexicographic order on character sequences (a proper prefix is smaller).
pub open spec fn str_lt(a: Seq<char>, b: Seq<char>) -> bool
    decreases a.len(),
{
    if a.len() == 0 {
        b.len() > 0
    } else if b.len() == 0 {
        false
    } else if a[0] != b[0] {
        a[0] < b[0]
    } else {
        str_lt(a.drop_first(), b.drop_first())
    }
}

pub proof fn lemma_str_lt_irrefl(a: Seq<char>)
    ensures
        !str_lt(a, a),
    decreases a.len(),
{
    if a.len() > 0 {
        lemma_str_lt_irrefl(a.drop_first());
    }
}

pub proof fn lemma_str_lt_trans(a: Seq<char>, b: Seq<char>, c: Seq<char>)
    requires
        str_lt(a, b),
        str_lt(b, c),
    ensures
        str_lt(a, c),
    decreases a.len(),
{
    if a.len() > 0 && b.len() > 0 && c.len() > 0 {
        if a[0] == b[0] && b[0] == c[0] {
            lemma_str_lt_trans(a.drop_first(), b.drop_first(), c.drop_first());
        }
    }
}

pub proof fn lemma_str_lt_total(a: Seq<char>, b: Seq<char>)
    ensures
        a == b || str_lt(a, b) || str_lt(b, a),
    decreases a.len(),
{
    if a.len() > 0 && b.len() > 0 && a[0] == b[0] {
        lemma_str_lt_total(a.drop_first(), b.drop_first());
        if a.drop_first() == b.drop_first() {
            assert(a =~= seq![a[0]] + a.drop_first());
            assert(b =~= seq![b[0]] + b.drop_first());
        }
    } else if a.len() == 0 && b.len() == 0 {
        assert(a =~= b);
    }
}

pub proof fn lemma_str_lt_asym(a: Seq<char>, b: Seq<char>)
    requires
        str_lt(a, b),
    ensures
        !str_lt(b, a),
        a != b,
{
    if str_lt(b, a) {
        lemma_str_lt_trans(a, b, a);
        lemma_str_lt_irrefl(a);
    }
    if a == b {
        lemma_str_lt_irrefl(a);
    }
}

/// Whether `a` sorts before `b`.
pub fn chars_lt(a: &[char], b: &[char]) -> (r: bool)
    ensures
        r == str_lt(a@, b@),
{
    let n = a.len();
    let m = b.len();
    let mut i: usize = 0;
    assert(a@.skip(0) =~= a@);
    assert(b@.skip(0) =~= b@);
    while i < n && i < m && a[i] == b[i]
        invariant
            i <= n == a@.len(),
            i <= m == b@.len(),
            str_lt(a@, b@) == str_lt(a@.skip(i as int), b@.skip(i as int)),
        decreases n - i,
    {
        assert(a@.skip(i as int).drop_first() =~= a@.skip(i + 1));
        assert(b@.skip(i as int).drop_first() =~= b@.skip(i + 1));
        i = i + 1;
    }
    if i == n {
        i < m
    } else if i == m {
        false
    } else {
        a[i] < b[i]
    }
}

/// Whether the string `a` sorts before `b`.
pub fn string_lt(a: &str, b: &str) -> (r: bool)
    ensures
        r == str_lt(a@, b@),
{
    let x = str_to_chars(a);
    let y = str_to_chars(b);
    chars_lt(&x, &y)
}

/// Keys strictly increasing.
pub open spec fn sorted_keys<V>(s: Seq<(String, V)>) -> bool {
    forall|i: int, j: int| 0 <= i < j < s.len() ==> str_lt(#[trigger] s[i].0@, #[trigger] s[j].0@)
}

/// Number of entries whose key sorts before `k`: where `k` sits or would
/// be inserted.
pub open spec fn lower_bound<V>(s: Seq<(String, V)>, k: Seq<char>) -> int
    decreases s.len(),
{
    if s.len() == 0 {
        0
    } else if str_lt(s.last().0@, k) {
        s.len() as int
    } else {
        lower_bound(s.drop_last(), k)
    }
}

/// Whether `k` is a key.
pub open spec fn has_key<V>(s: Seq<(String, V)>, k: Seq<char>) -> bool {
    let i = lower_bound(s, k);
    0 <= i < s.len() && s[i].0@ == k
}

/// The value at `k`.
pub open spec fn lookup<V>(s: Seq<(String, V)>, k: Seq<char>) -> Option<V> {
    if has_key(s, k) {
        Some(s[lower_bound(s, k)].1)
    } else {
        None
    }
}

/// `s` with `k` set to `v`; an existing entry keeps its key string.
pub open spec fn put<V>(s: Seq<(String, V)>, k: String, v: V) -> Seq<(String, V)> {
    let i = lower_bound(s, k@);
    if has_key(s, k@) {
        s.update(i, (s[i].0, v))
    } else {
        s.insert(i, (k, v))
    }
}

/// `s` without the entry for `k`.
pub open spec fn delete<V>(s: Seq<(String, V)>, k: Seq<char>) -> Seq<(String, V)> {
    if has_key(s, k) {
        s.remove(lower_bound(s, k))
    } else {
        s
    }
}

pub proof fn lemma_lower_bound<V>(s: Seq<(String, V)>, k: Seq<char>)
    requires
        sorted_keys(s),
    ensures
        0 <= lower_bound(s, k) <= s.len(),
        forall|i: int| 0 <= i < lower_bound(s, k) ==> str_lt(#[trigger] s[i].0@, k),
        forall|i: int| lower_bound(s, k) <= i < s.len() ==> !str_lt(#[trigger] s[i].0@, k),
    decreases s.len(),
{
    if s.len() > 0 {
        let d = s.drop_last();
        assert(sorted_keys(d));
        lemma_lower_bound(d, k);
        if str_lt(s.last().0@, k) {
            assert forall|i: int| 0 <= i < s.len() implies str_lt(#[trigger] s[i].0@, k) by {
                if i < s.len() - 1 {
                    lemma_str_lt_trans(s[i].0@, s.last().0@, k);
                }
            }
        } else {
            assert forall|i: int| 0 <= i < lower_bound(s, k) implies str_lt(#[trigger] s[i].0@, k) by {
                assert(d[i] == s[i]);
                assert(str_lt(d[i].0@, k));
            }
            assert forall|i: int| lower_bound(s, k) <= i < s.len() implies !str_lt(
                #[trigger] s[i].0@,
                k,
            ) by {
                if i < s.len() - 1 {
                    assert(!str_lt(d[i].0@, k));
                }
            }
        }
    }
}

/// With sorted keys, `has_key` holds exactly when some entry carries `k`.
pub proof fn lemma_has_key<V>(s: Seq<(String, V)>, k: Seq<char>)
    requires
        sorted_keys(s),
    ensures
        has_key(s, k) <==> exists|i: int| 0 <= i < s.len() && #[trigger] s[i].0@ == k,
        forall|i: int| 0 <= i < s.len() && #[trigger] s[i].0@ == k ==> i == lower_bound(s, k),
{
    lemma_lower_bound(s, k);
    let lb = lower_bound(s, k);
    assert forall|i: int| 0 <= i < s.len() && #[trigger] s[i].0@ == k implies i == lb by {
        lemma_str_lt_irrefl(k);
        if i > lb {
            lemma_str_lt_total(s[lb].0@, k);
            assert(str_lt(s[lb].0@, s[i].0@));
        }
    }
}

/// Setting a key keeps the keys strictly ascending.
pub proof fn lemma_put_sorted<V>(s: Seq<(String, V)>, k: String, v: V)
    requires
        sorted_keys(s),
    ensures
        sorted_keys(put(s, k, v)),
{
    lemma_lower_bound(s, k@);
    let i = lower_bound(s, k@);
    let t = put(s, k, v);
    if has_key(s, k@) {
        assert forall|a: int, b: int| 0 <= a < b < t.len() implies str_lt(
            #[trigger] t[a].0@,
            #[trigger] t[b].0@,
        ) by {
            assert(t[a].0 == s[a].0);
            assert(t[b].0 == s[b].0);
        }
    } else {
        let ki = k@;
        assert forall|a: int, b: int| 0 <= a < b < t.len() implies str_lt(
            #[trigger] t[a].0@,
            #[trigger] t[b].0@,
        ) by {
            if b < i {
            } else if a > i {
                assert(t[a] == s[a - 1]);
                assert(t[b] == s[b - 1]);
            } else if a == i {
                assert(t[b] == s[b - 1]);
                assert(!str_lt(s[b - 1].0@, ki));
                lemma_str_lt_total(s[b - 1].0@, ki);
                if i < s.len() {
                    assert(s[i].0@ != ki);
                    if b - 1 > i {
                        assert(str_lt(s[i].0@, s[b - 1].0@));
                    }
                    lemma_str_lt_total(s[i].0@, ki);
                }
            } else if b == i {
                assert(t[a] == s[a]);
                assert(str_lt(s[a].0@, ki));
            } else {
                assert(t[a] == s[a]);
                assert(t[b] == s[b - 1]);
            }
        }
    }
}

/// The entry for `k`, its key string included.
pub open spec fn entry_at<V>(s: Seq<(String, V)>, k: Seq<char>) -> Option<(String, V)> {
    if has_key(s, k) {
        Some(s[lower_bound(s, k)])
    } else {
        None
    }
}

/// After setting `k`, its entry holds `v` (under the key string already
/// there, if any); every other entry is as before.
pub proof fn lemma_put_entry<V>(s: Seq<(String, V)>, k: String, v: V, j: Seq<char>)
    requires
        sorted_keys(s),
    ensures
        sorted_keys(put(s, k, v)),
        entry_at(put(s, k, v), j) == (if j == k@ {
            Some(
                (
                    if has_key(s, k@) {
                        s[lower_bound(s, k@)].0
                    } else {
                        k
                    },
                    v,
                ),
            )
        } else {
            entry_at(s, j)
        }),
{
    lemma_put_sorted(s, k, v);
    let t = put(s, k, v);
    let i = lower_bound(s, k@);
    lemma_lower_bound(s, k@);
    lemma_has_key(s, k@);
    lemma_has_key(t, k@);
    lemma_has_key(s, j);
    lemma_has_key(t, j);
    assert(t[i].0@ == k@);
    if j != k@ {
        if has_key(s, j) {
            let p = lower_bound(s, j);
            if has_key(s, k@) {
                assert(t[p] == s[p]);
            } else if p < i {
                assert(t[p] == s[p]);
            } else {
                assert(t[p + 1] == s[p]);
            }
        }
        if has_key(t, j) {
            let q = lower_bound(t, j);
            if has_key(s, k@) {
                assert(s[q].0@ == j);
            } else if q < i {
                assert(s[q].0@ == j);
            } else {
                assert(q != i);
                assert(s[q - 1].0@ == j);
            }
        }
    }
}

/// After removing `k` it has no entry; every other entry is as before.
pub proof fn lemma_delete_entry<V>(s: Seq<(String, V)>, k: Seq<char>, j: Seq<char>)
    requires
        sorted_keys(s),
    ensures
        sorted_keys(delete(s, k)),
        entry_at(delete(s, k), j) == (if j == k {
            None
        } else {
            entry_at(s, j)
        }),
{
    lemma_delete_lookup(s, k, j);
    let t = delete(s, k);
    lemma_has_key(s, k);
    lemma_has_key(s, j);
    lemma_has_key(t, j);
    lemma_has_key(t, k);
    if has_key(s, k) {
        let i = lower_bound(s, k);
        if has_key(t, j) {
            let q = lower_bound(t, j);
            let q2 = if q < i { q } else { q + 1 };
            assert(t[q] == s[q2]);
        }
        if j != k && has_key(s, j) {
            let p = lower_bound(s, j);
            if p < i {
                assert(t[p] == s[p]);
            } else {
                assert(p != i);
                assert(t[p - 1] == s[p]);
            }
        }
    }
}

/// Two maps with the same entry for every key are the same.
pub proof fn lemma_entries_ext<V>(s: Seq<(String, V)>, t: Seq<(String, V)>)
    requires
        sorted_keys(s),
        sorted_keys(t),
        forall|j: Seq<char>| #[trigger] entry_at(s, j) == entry_at(t, j),
    ensures
        s == t,
    decreases s.len() + t.len(),
{
    if s.len() == 0 || t.len() == 0 {
        if s.len() > 0 {
            lemma_has_key(s, s[0].0@);
            assert(entry_at(s, s[0].0@) is Some);
            assert(entry_at(t, s[0].0@) is None);
        }
        if t.len() > 0 {
            lemma_has_key(t, t[0].0@);
            assert(entry_at(t, t[0].0@) is Some);
            assert(entry_at(s, t[0].0@) is None);
        }
        assert(s =~= t);
    } else {
        let ks = s.last().0@;
        let kt = t.last().0@;
        lemma_has_key(s, ks);
        lemma_has_key(t, ks);
        lemma_has_key(s, kt);
        lemma_has_key(t, kt);
        assert(entry_at(s, ks) == Some(s.last()));
        assert(entry_at(t, kt) == Some(t.last()));
        assert(entry_at(t, ks) is Some);
        assert(entry_at(s, kt) is Some);
        let p = lower_bound(t, ks);
        let q = lower_bound(s, kt);
        if p < t.len() - 1 {
            assert(str_lt(ks, kt));
            if q < s.len() - 1 {
                assert(str_lt(kt, ks));
                lemma_str_lt_asym(ks, kt);
            } else {
                lemma_str_lt_irrefl(ks);
            }
        }
        assert(s.last() == t.last());
        let s2 = s.drop_last();
        let t2 = t.drop_last();
        assert(delete(s, ks) =~= s2);
        assert(delete(t, ks) =~= t2);
        assert forall|j: Seq<char>| #[trigger] entry_at(s2, j) == entry_at(t2, j) by {
            lemma_delete_entry(s, ks, j);
            lemma_delete_entry(t, ks, j);
        }
        lemma_delete_entry(s, ks, ks);
        lemma_delete_entry(t, ks, ks);
        lemma_entries_ext(s2, t2);
        assert(s =~= s2.push(s.last()));
        assert(t =~= t2.push(t.last()));
    }
}

/// A map from strings to `V` whose entries are kept in ascending key order.
#[derive(Debug, PartialEq)]
pub struct StrMap<V> {
    entries: Vec<(String, V)>,
}

impl<V> StrMap<V> {
    #[verifier::type_invariant]
    spec fn inv(self) -> bool {
        sorted_keys(self.entries@)
    }

    /// The entries in ascending key order.
    pub closed spec fn kv(self) -> Seq<(String, V)> {
        self.entries@
    }

    /// The key strings in ascending order.
    pub open spec fn keys(self) -> Seq<Seq<char>> {
        self.kv().map_values(|e: (String, V)| e.0@)
    }

    /// The entries are in strictly ascending key order (a fact for proofs;
    /// does nothing at run time).
    pub fn note_sorted(&self)
        ensures
            sorted_keys(self.kv()),
    {
        proof {
            use_type_invariant(self);
        }
    }

    /// An empty map.
    pub fn new() -> (m: Self)
        ensures
            m.kv() == Seq::<(String, V)>::empty(),
    {
        StrMap { entries: Vec::new() }
    }

    /// The entries in ascending key order.
    pub fn entries(&self) -> (r: &Vec<(String, V)>)
        ensures
            r@ == self.kv(),
    {
        &self.entries
    }

    /// The entries in ascending key order, taking the map apart.
    pub fn into_entries(self) -> (r: Vec<(String, V)>)
        ensures
            r@ == self.kv(),
            sorted_keys(r@),
    {
        proof {
            use_type_invariant(&self);
        }
        self.entries
    }

    pub fn len(&self) -> (n: usize)
        ensures
            n == self.kv().len(),
    {
        self.entries.len()
    }

    fn position(&self, k: &str) -> (i: usize)
        ensures
            i == lower_bound(self.kv(), k@),
    {
        proof {
            use_type_invariant(self);
            lemma_lower_bound(self.kv(), k@);
        }
        let n = self.entries.len();
        let mut i: usize = n;
        assert(self.entries@.subrange(0, n as int) =~= self.entries@);
        // Walk back from the end while the entry before `i` is not below `k`.
        while i > 0 && !string_lt(self.entries[i - 1].0.as_str(), k)
            invariant
                i <= n == self.entries@.len(),
                lower_bound(self.entries@, k@) == lower_bound(self.entries@.subrange(0, i as int), k@),
            decreases i,
        {
            assert(self.entries@.subrange(0, i as int).drop_last() =~= self.entries@.subrange(
                0,
                i - 1,
            ));
            i = i - 1;
        }
        if i > 0 {
            assert(self.entries@.subrange(0, i as int).last() == self.entries@[i - 1]);
        }
        i
    }

    /// Whether `k` is a key.
    pub fn contains_key(&self, k: &str) -> (b: bool)
        ensures
            b == has_key(self.kv(), k@),
    {
        let i = self.position(k);
        i < self.entries.len() && crate::text::str_eq(self.entries[i].0.as_str(), k)
    }

    /// The value at `k`.
    pub fn get(&self, k: &str) -> (r: Option<&V>)
        ensures
            match r {
                Some(v) => lookup(self.kv(), k@) == Some(*v),
                None => lookup(self.kv(), k@) is None,
            },
    {
        let i = self.position(k);
        if i < self.entries.len() && crate::text::str_eq(self.entries[i].0.as_str(), k) {
            Some(&self.entries[i].1)
        } else {
            None
        }
    }

    /// Set `k` to `v` (an existing entry keeps its key string).
    pub fn insert(&mut self, k: String, v: V)
        ensures
            final(self).kv() == put(old(self).kv(), k, v),
    {
        proof {
            use_type_invariant(&*self);
            lemma_lower_bound(self.kv(), k@);
            lemma_put_sorted(self.kv(), k, v);
        }
        let i = self.position(k.as_str());
        let found = i < self.entries.len() && crate::text::str_eq(self.entries[i].0.as_str(), k.as_str());
        let ghost old_s = self.entries@;
        let mut entries = Vec::new();
        std::mem::swap(&mut entries, &mut self.entries);
        if found {
            let (old_key, _old_v) = entries.remove(i);
            entries.insert(i, (old_key, v));
            assert(entries@ =~= old_s.update(i as int, (old_s[i as int].0, v)));
        } else {
            entries.insert(i, (k, v));
            assert(entries@ =~= old_s.insert(i as int, (k, v)));
        }
        self.entries = entries;
    }

    /// Remove the entry for `k`, if any.
    pub fn remove(&mut self, k: &str)
        ensures
            final(self).kv() == delete(old(self).kv(), k@),
    {
        proof {
            use_type_invariant(&*self);
        }
        let i = self.position(k);
        if i < self.entries.len() && crate::text::str_eq(self.entries[i].0.as_str(), k) {
            let ghost old_s = self.entries@;
            let mut entries = Vec::new();
            std::mem::swap(&mut entries, &mut self.entries);
            let _ = entries.remove(i);
            assert(entries@ =~= old_s.remove(i as int));
            proof {
                assert forall|a: int, b: int| 0 <= a < b < entries@.len() implies str_lt(
                    #[trigger] entries@[a].0@,
                    #[trigger] entries@[b].0@,
                ) by {
                    if a >= i {
                        assert(entries@[a] == old_s[a + 1]);
                    } else {
                        assert(entries@[a] == old_s[a]);
                    }
                    if b >= i {
                        assert(entries@[b] == old_s[b + 1]);
                    } else {
                        assert(entries@[b] == old_s[b]);
                    }
                }
            }
            self.entries = entries;
        }
    }
}

/// `v` in reverse order (so that `pop` yields the entries first to last).
pub fn reversed<T>(v: Vec<T>) -> (r: Vec<T>)
    ensures
        r@.len() == v@.len(),
        forall|j: int| 0 <= j < v@.len() ==> r@[j] == v@[v@.len() - 1 - j],
{
    let ghost orig = v@;
    let mut v = v;
    let mut r: Vec<T> = Vec::new();
    while v.len() > 0
        invariant
            v@ == orig.subrange(0, v@.len() as int),
            r@.len() + v@.len() == orig.len(),
            forall|j: int| 0 <= j < r@.len() ==> r@[j] == orig[orig.len() - 1 - j],
        decreases v@.len(),
    {
        let x = v.pop().unwrap();
        r.push(x);
    }
    r
}

/// Reading a key just written gives the written value; other keys keep
/// their values.
pub proof fn lemma_put_lookup<V>(s: Seq<(String, V)>, k: String, v: V, j: Seq<char>)
    requires
        sorted_keys(s),
        sorted_keys(put(s, k, v)),
    ensures
        lookup(put(s, k, v), k@) == Some(v),
        j != k@ ==> lookup(put(s, k, v), j) == lookup(s, j),
{
    let t = put(s, k, v);
    let i = lower_bound(s, k@);
    lemma_lower_bound(s, k@);
    lemma_has_key(s, k@);
    lemma_has_key(t, k@);
    lemma_has_key(s, j);
    lemma_has_key(t, j);
    if has_key(s, k@) {
        assert(t[i].0@ == k@);
    } else {
        assert(t[i].0@ == k@);
    }
    if j != k@ {
        if has_key(s, j) {
            let p = lower_bound(s, j);
            if has_key(s, k@) {
                assert(t[p].0@ == j);
            } else if p < i {
                assert(t[p].0@ == j);
            } else {
                assert(t[p + 1].0@ == j);
            }
        }
        if has_key(t, j) {
            let q = lower_bound(t, j);
            if has_key(s, k@) {
                assert(s[q].0@ == j);
            } else if q < i {
                assert(s[q].0@ == j);
            } else {
                assert(q != i);
                assert(s[q - 1].0@ == j);
            }
        }
    }
}

/// Removing a key keeps the keys strictly ascending; the key is then
/// absent and every other key keeps its value.
pub proof fn lemma_delete_lookup<V>(s: Seq<(String, V)>, k: Seq<char>, j: Seq<char>)
    requires
        sorted_keys(s),
    ensures
        sorted_keys(delete(s, k)),
        lookup(delete(s, k), k) is None,
        j != k ==> lookup(delete(s, k), j) == lookup(s, j),
{
    let t = delete(s, k);
    lemma_has_key(s, k);
    lemma_has_key(s, j);
    if has_key(s, k) {
        let i = lower_bound(s, k);
        assert forall|a: int, b: int| 0 <= a < b < t.len() implies str_lt(
            #[trigger] t[a].0@,
            #[trigger] t[b].0@,
        ) by {
            let a2 = if a < i { a } else { a + 1 };
            let b2 = if b < i { b } else { b + 1 };
            assert(t[a] == s[a2]);
            assert(t[b] == s[b2]);
        }
        lemma_has_key(t, k);
        lemma_has_key(t, j);
        if has_key(t, k) {
            let q = lower_bound(t, k);
            let q2 = if q < i { q } else { q + 1 };
            assert(t[q] == s[q2]);
        }
        if j != k {
            if has_key(s, j) {
                let p = lower_bound(s, j);
                if p < i {
                    assert(t[p].0@ == j);
                } else {
                    assert(p != i);
                    assert(t[p - 1].0@ == j);
                }
            }
            if has_key(t, j) {
                let q = lower_bound(t, j);
                let q2 = if q < i { q } else { q + 1 };
                assert(t[q] == s[q2]);
                assert(s[q2].0@ == j);
            }
        }
    }
}

impl<V: Clone> Clone for StrMap<V> {
    /// A copy with the same keys (values copied by `V::clone`).
    fn clone(&self) -> (r: Self)
        ensures
            r.keys() == self.keys(),
    {
        proof {
            use_type_invariant(self);
        }
        let n = self.entries.len();
        let mut out: Vec<(String, V)> = Vec::new();
        let mut i: usize = 0;
        while i < n
            invariant
                n == self.entries@.len(),
                i <= n,
                sorted_keys(self.entries@),
                out@.len() == i,
                forall|j: int| 0 <= j < i ==> (#[trigger] out@[j]).0@ == self.entries@[j].0@,
            decreases n - i,
        {
            let k = self.entries[i].0.clone();
            let v = self.entries[i].1.clone();
            out.push((k, v));
            i = i + 1;
        }
        let r = StrMap { entries: out };
        assert(r.keys() =~= self.keys());
        r
    }
}

} // verus!
