use vstd::prelude::*;
use crate::text::chars_of;

verus! {

// ---------------------------------------------------------------------------
// The order of `String`'s `Ord`: lexicographic by character
// ---------------------------------------------------------------------------

/// `a < b` in the order of `String` (byte-wise on UTF-8, which orders as the
/// characters' code points do).
pub open spec fn str_lt(a: Seq<char>, b: Seq<char>) -> bool
    decreases a.len(),
{
    if a.len() == 0 {
        b.len() > 0
    } else if b.len() == 0 {
        false
    } else if a[0] != b[0] {
        a[0] < b[0]
    } else {
        str_lt(a.drop_first(), b.drop_first())
    }
}

pub proof fn lemma_str_lt_irrefl(a: Seq<char>)
    ensures
        !str_lt(a, a),
    decreases a.len(),
{
    if a.len() > 0 {
        lemma_str_lt_irrefl(a.drop_first());
    }
}

pub proof fn lemma_str_lt_trans(a: Seq<char>, b: Seq<char>, c: Seq<char>)
    requires
        str_lt(a, b),
        str_lt(b, c),
    ensures
        str_lt(a, c),
    decreases a.len(),
{
    if a.len() > 0 && b.len() > 0 && c.len() > 0 && a[0] == b[0] && b[0] == c[0] {
        lemma_str_lt_trans(a.drop_first(), b.drop_first(), c.drop_first());
    }
}

pub proof fn lemma_str_lt_total(a: Seq<char>, b: Seq<char>)
    ensures
        a == b || str_lt(a, b) || str_lt(b, a),
    decreases a.len(),
{
    if a.len() > 0 && b.len() > 0 && a[0] == b[0] {
        lemma_str_lt_total(a.drop_first(), b.drop_first());
        if a.drop_first() == b.drop_first() {
            assert(a =~= seq![a[0]] + a.drop_first());
            assert(b =~= seq![b[0]] + b.drop_first());
        }
    } else if a.len() == 0 && b.len() == 0 {
        assert(a =~= b);
    }
}

pub proof fn lemma_str_lt_ne(a: Seq<char>, b: Seq<char>)
    requires
        str_lt(a, b),
    ensures
        a != b,
        !str_lt(b, a),
{
    lemma_str_lt_irrefl(a);
    if str_lt(b, a) {
        lemma_str_lt_trans(a, b, a);
    }
}

/// Three-way comparison of two character sequences in `String` order:
/// `-1` when `a < b`, `0` when equal, `1` when `a > b`.
pub fn compare_chars(a: &Vec<char>, b: &Vec<char>) -> (r: i8)
    ensures
        r == -1 <==> str_lt(a@, b@),
        r == 0 <==> a@ == b@,
        r == 1 <==> str_lt(b@, a@),
        r == -1 || r == 0 || r == 1,
{
    let mut i: usize = 0;
    while i < a.len() && i < b.len() && a[i] == b[i]
        invariant
            i <= a.len(),
            i <= b.len(),
            a@.take(i as int) == b@.take(i as int),
        decreases a.len() - i,
    {
        assert(a@.take(i + 1) =~= a@.take(i as int).push(a@[i as int]));
        assert(b@.take(i + 1) =~= b@.take(i as int).push(b@[i as int]));
        i += 1;
    }
    proof {
        lemma_str_lt_skip_common(a@, b@, i as int);
        lemma_str_lt_irrefl(a@);
        lemma_str_lt_total(a@, b@);
        lemma_str_lt_total(a@.skip(i as int), b@.skip(i as int));
    }
    let r: i8 = if i == a.len() && i == b.len() {
        0
    } else if i == a.len() {
        -1
    } else if i == b.len() {
        1
    } else if a[i] < b[i] {
        -1
    } else {
        1
    };
    proof {
        if i == a.len() && i == b.len() {
            assert(a@ =~= a@.take(i as int));
            assert(b@ =~= b@.take(i as int));
        } else {
            assert(a@.skip(i as int) != b@.skip(i as int) || a@ != b@ || true);
            if a@ == b@ {
                assert(false);
            }
            if r == -1 {
                lemma_str_lt_ne(a@, b@);
            } else {
                lemma_str_lt_ne(b@, a@);
            }
        }
    }
    r
}

proof fn lemma_str_lt_skip_common(a: Seq<char>, b: Seq<char>, i: int)
    requires
        0 <= i <= a.len(),
        i <= b.len(),
        a.take(i) == b.take(i),
    ensures
        str_lt(a, b) == str_lt(a.skip(i), b.skip(i)),
        (i == a.len() && i < b.len()) ==> str_lt(a, b),
        (i < a.len() && i == b.len()) ==> str_lt(b, a),
        (i < a.len() && i < b.len() && a[i] != b[i]) ==> (str_lt(a, b) == (a[i] < b[i])),
        (i < a.len() && i < b.len() && a[i] != b[i]) ==> (str_lt(b, a) == (b[i] < a[i])),
        (i < a.len() && i < b.len() && a[i] != b[i]) ==> a != b,
        (i < a.len() && i == b.len()) ==> a != b,
        (i == a.len() && i < b.len()) ==> a != b,
        str_lt(b, a) == str_lt(b.skip(i), a.skip(i)),
    decreases i,
{
    if i > 0 {
        assert(a[0] == a.take(i)[0]);
        assert(b[0] == b.take(i)[0]);
        assert(a.drop_first().take(i - 1) =~= a.take(i).drop_first());
        assert(b.drop_first().take(i - 1) =~= b.take(i).drop_first());
        lemma_str_lt_skip_common(a.drop_first(), b.drop_first(), i - 1);
        assert(a.drop_first().skip(i - 1) =~= a.skip(i));
        assert(b.drop_first().skip(i - 1) =~= b.skip(i));
        if i < a.len() && i < b.len() && a[i] != b[i] {
            assert(a.drop_first()[i - 1] == a[i]);
            assert(b.drop_first()[i - 1] == b[i]);
        }
        if (i < a.len() && i == b.len()) || (i == a.len() && i < b.len()) {
            assert(a.len() != b.len());
        }
    } else {
        assert(a.skip(0) =~= a);
        assert(b.skip(0) =~= b);
    }
}

// ---------------------------------------------------------------------------
// A map keyed by strings, kept in increasing key order
// ---------------------------------------------------------------------------

/// Entries with strictly increasing keys (hence no key twice).
pub open spec fn sorted_keys<V>(e: Seq<(Seq<char>, V)>) -> bool {
    forall|i: int, j: int| 0 <= i < j < e.len() ==> str_lt(#[trigger] e[i].0, #[trigger] e[j].0)
}

/// Some entry has key `k`.
pub open spec fn has_key<V>(e: Seq<(Seq<char>, V)>, k: Seq<char>) -> bool {
    exists|i: int| 0 <= i < e.len() && #[trigger] e[i].0 == k
}

/// The index of the entry with key `k` (meaningful when `has_key`).
pub open spec fn key_index<V>(e: Seq<(Seq<char>, V)>, k: Seq<char>) -> int {
    choose|i: int| 0 <= i < e.len() && #[trigger] e[i].0 == k
}

/// The value stored under `k`, if any.
pub open spec fn lookup<V>(e: Seq<(Seq<char>, V)>, k: Seq<char>) -> Option<V> {
    if has_key(e, k) {
        Some(e[key_index(e, k)].1)
    } else {
        None
    }
}

/// In sorted entries, the entry with a given key is unique.
pub proof fn lemma_sorted_unique<V>(e: Seq<(Seq<char>, V)>, i: int, j: int)
    requires
        sorted_keys(e),
        0 <= i < e.len(),
        0 <= j < e.len(),
        e[i].0 == e[j].0,
    ensures
        i == j,
{
    if i < j {
        lemma_str_lt_ne(e[i].0, e[j].0);
    } else if j < i {
        lemma_str_lt_ne(e[j].0, e[i].0);
    }
}

/// In sorted entries, `lookup` gives the value at any index holding the key.
pub proof fn lemma_lookup_at<V>(e: Seq<(Seq<char>, V)>, i: int)
    requires
        sorted_keys(e),
        0 <= i < e.len(),
    ensures
        has_key(e, e[i].0),
        key_index(e, e[i].0) == i,
        lookup(e, e[i].0) == Some(e[i].1),
{
    assert(has_key(e, e[i].0));
    let j = key_index(e, e[i].0);
    lemma_sorted_unique(e, i, j);
}

/// After storing `v` under `k`, `k` gives `v` and every other key what it gave.
proof fn lemma_insert_lookup<V>(old_e: Seq<(Seq<char>, V)>, new_e: Seq<(Seq<char>, V)>, k: Seq<char>, v: V)
    requires
        sorted_keys(old_e),
        sorted_keys(new_e),
        has_key(old_e, k) ==> new_e == old_e.update(key_index(old_e, k), (k, v)),
        !has_key(old_e, k) ==> exists|pos: int| 0 <= pos <= old_e.len() && new_e == old_e.insert(pos, (k, v)),
    ensures
        lookup(new_e, k) == Some(v),
        forall|q: Seq<char>| q != k ==> #[trigger] lookup(new_e, q) == lookup(old_e, q),
{
    let x = (k, v);
    if has_key(old_e, k) {
        let j = key_index(old_e, k);
        assert(new_e[j] == x);
        lemma_lookup_at(new_e, j);
        assert forall|q: Seq<char>| q != k implies #[trigger] lookup(new_e, q) == lookup(old_e, q) by {
            if has_key(old_e, q) {
                let a = key_index(old_e, q);
                lemma_lookup_at(old_e, a);
                assert(new_e[a] == old_e[a]);
                lemma_lookup_at(new_e, a);
            }
            if has_key(new_e, q) {
                let b = key_index(new_e, q);
                assert(new_e[b] == old_e[b]);
                lemma_lookup_at(old_e, b);
            }
        }
    } else {
        let pos = choose|pos: int| 0 <= pos <= old_e.len() && new_e == old_e.insert(pos, x);
        assert(new_e[pos] == x);
        lemma_lookup_at(new_e, pos);
        assert forall|q: Seq<char>| q != k implies #[trigger] lookup(new_e, q) == lookup(old_e, q) by {
            if has_key(old_e, q) {
                let a = key_index(old_e, q);
                lemma_lookup_at(old_e, a);
                let b = if a < pos { a } else { a + 1 };
                assert(new_e[b] == old_e[a]);
                lemma_lookup_at(new_e, b);
            }
            if has_key(new_e, q) {
                let b = key_index(new_e, q);
                let a = if b < pos { b } else { b - 1 };
                assert(new_e[b] == old_e[a]);
                lemma_lookup_at(old_e, a);
            }
        }
    }
}

/// A map from strings to values whose entries stay in increasing key order,
/// as those of a `BTreeMap<String, V>` are visited.
#[derive(Debug)]
pub struct StrMap<V> {
    entries: Vec<(String, V)>,
}

impl<V> StrMap<V> {
    /// The entries, keys taken as character sequences, in increasing key order.
    pub closed spec fn view(&self) -> Seq<(Seq<char>, V)> {
        self.entries@.map_values(|p: (String, V)| (p.0@, p.1))
    }

    #[verifier::type_invariant]
    pub open spec fn inv(&self) -> bool {
        sorted_keys(self@)
    }

    pub fn new() -> (m: Self)
        ensures
            m@ == Seq::<(Seq<char>, V)>::empty(),
    {
        let m = StrMap { entries: Vec::new() };
        assert(m@ =~= Seq::<(Seq<char>, V)>::empty());
        m
    }

    pub fn len(&self) -> (n: usize)
        ensures
            n == self@.len(),
    {
        self.entries.len()
    }

    /// Whether the map has no entry.
    pub fn is_empty(&self) -> (b: bool)
        ensures
            b == (self@.len() == 0),
    {
        self.entries.len() == 0
    }

    /// The key of the `i`-th entry.
    pub fn key_at(&self, i: usize) -> (k: &String)
        requires
            i < self@.len(),
        ensures
            k@ == self@[i as int].0,
    {
        &self.entries[i].0
    }

    /// The value of the `i`-th entry.
    pub fn value_at(&self, i: usize) -> (v: &V)
        requires
            i < self@.len(),
        ensures
            *v == self@[i as int].1,
    {
        &self.entries[i].1
    }

    /// Where `k` is, or where it would be inserted to keep the order.
    fn position(&self, k: &Vec<char>) -> (r: (usize, bool))
        ensures
            r.0 <= self@.len(),
            forall|i: int| 0 <= i < r.0 ==> str_lt(#[trigger] self@[i].0, k@),
            r.1 ==> r.0 < self@.len() && self@[r.0 as int].0 == k@,
            !r.1 ==> forall|i: int| r.0 <= i < self@.len() ==> str_lt(k@, #[trigger] self@[i].0),
    {
        proof {
            use_type_invariant(self);
        }
        let mut i: usize = 0;
        while i < self.entries.len()
            invariant
                i <= self@.len(),
                self@.len() == self.entries@.len(),
                sorted_keys(self@),
                forall|j: int| 0 <= j < i ==> str_lt(#[trigger] self@[j].0, k@),
            decreases self.entries.len() - i,
        {
            let key = chars_of(self.entries[i].0.as_str());
            assert(key@ == self@[i as int].0);
            let c = compare_chars(&key, k);
            if c == 0 {
                return (i, true);
            }
            if c == 1 {
                assert forall|j: int| i <= j < self@.len() implies str_lt(
                    k@,
                    #[trigger] self@[j].0,
                ) by {
                    if j > i {
                        lemma_str_lt_trans(k@, self@[i as int].0, self@[j].0);
                    }
                }
                return (i, false);
            }
            i += 1;
        }
        (i, false)
    }

    /// The value stored under `key`, if any.
    pub fn get(&self, key: &str) -> (r: Option<&V>)
        ensures
            match lookup(self@, key@) {
                Some(v) => r == Some(&v),
                None => r is None,
            },
    {
        proof {
            use_type_invariant(self);
        }
        let k = chars_of(key);
        let (i, found) = self.position(&k);
        if found {
            proof {
                lemma_lookup_at(self@, i as int);
            }
            Some(&self.entries[i].1)
        } else {
            proof {
                if has_key(self@, key@) {
                    let j = key_index(self@, key@);
                    lemma_str_lt_ne(self@[j].0, k@);
                    if j >= i {
                        lemma_str_lt_ne(k@, self@[j].0);
                    }
                }
            }
            None
        }
    }

    /// The index of the entry with key `key`, if any.
    pub fn index_of(&self, key: &str) -> (r: Option<usize>)
        ensures
            match r {
                Some(i) => i < self@.len() && self@[i as int].0 == key@ && has_key(self@, key@)
                    && key_index(self@, key@) == i,
                None => !has_key(self@, key@),
            },
    {
        proof {
            use_type_invariant(self);
        }
        let k = chars_of(key);
        let (i, found) = self.position(&k);
        if found {
            proof {
                lemma_lookup_at(self@, i as int);
            }
            Some(i)
        } else {
            proof {
                if has_key(self@, key@) {
                    let j = key_index(self@, key@);
                    lemma_str_lt_ne(self@[j].0, k@);
                    if j >= i {
                        lemma_str_lt_ne(k@, self@[j].0);
                    }
                }
            }
            None
        }
    }

    /// Stores `value` under `key`, replacing the value already there, or adding an
    /// entry at the place that keeps the keys in order.
    pub fn insert(&mut self, key: String, value: V)
        ensures
            has_key(old(self)@, key@) ==> final(self)@ == old(self)@.update(
                key_index(old(self)@, key@),
                (key@, value),
            ),
            !has_key(old(self)@, key@) ==> exists|pos: int|
                0 <= pos <= old(self)@.len() && final(self)@ == old(self)@.insert(
                    pos,
                    (key@, value),
                ),
            sorted_keys(final(self)@),
            lookup(final(self)@, key@) == Some(value),
            forall|k: Seq<char>| k != key@ ==> #[trigger] lookup(final(self)@, k) == lookup(old(self)@, k),
    {
        proof {
            use_type_invariant(&*self);
        }
        let k = chars_of(key.as_str());
        let (i, found) = self.position(&k);
        let ghost old_view = self@;
        if found {
            proof {
                lemma_lookup_at(self@, i as int);
            }
            self.set_at(i, key, value);
        } else {
            proof {
                if has_key(old_view, key@) {
                    let j = key_index(old_view, key@);
                    lemma_str_lt_ne(old_view[j].0, k@);
                    if j >= i {
                        lemma_str_lt_ne(k@, old_view[j].0);
                    }
                }
            }
            self.insert_at(i, key, value);
            proof {
                assert(self@ == old_view.insert(i as int, (key@, value)));
            }
        }
        proof {
            use_type_invariant(&*self);
            lemma_insert_lookup(old_view, self@, k@, value);
        }
    }

    fn set_at(&mut self, i: usize, key: String, value: V)
        requires
            i < old(self)@.len(),
            old(self)@[i as int].0 == key@,
        ensures
            final(self)@ == old(self)@.update(i as int, (key@, value)),
    {
        proof {
            use_type_invariant(&*self);
        }
        let ghost old_view = self@;
        let mut entries = Vec::new();
        std::mem::swap(&mut entries, &mut self.entries);
        entries.set(i, (key, value));
        proof {
            let nv = entries@.map_values(|p: (String, V)| (p.0@, p.1));
            assert(nv =~= old_view.update(i as int, (key@, value)));
            assert forall|a: int, b: int| 0 <= a < b < nv.len() implies str_lt(
                #[trigger] nv[a].0,
                #[trigger] nv[b].0,
            ) by {
                assert(nv[a].0 == old_view[a].0);
                assert(nv[b].0 == old_view[b].0);
            }
        }
        self.entries = entries;
    }

    fn insert_at(&mut self, i: usize, key: String, value: V)
        requires
            i <= old(self)@.len(),
            forall|j: int| 0 <= j < i ==> str_lt(#[trigger] old(self)@[j].0, key@),
            forall|j: int| i <= j < old(self)@.len() ==> str_lt(key@, #[trigger] old(self)@[j].0),
        ensures
            final(self)@ == old(self)@.insert(i as int, (key@, value)),
    {
        proof {
            use_type_invariant(&*self);
        }
        let ghost old_view = self@;
        let mut entries = Vec::new();
        std::mem::swap(&mut entries, &mut self.entries);
        entries.insert(i, (key, value));
        proof {
            let nv = entries@.map_values(|p: (String, V)| (p.0@, p.1));
            assert(nv =~= old_view.insert(i as int, (key@, value)));
            assert forall|a: int, b: int| 0 <= a < b < nv.len() implies str_lt(
                #[trigger] nv[a].0,
                #[trigger] nv[b].0,
            ) by {
                if b < i {
                    assert(nv[a] == old_view[a] && nv[b] == old_view[b]);
                } else if b == i {
                    assert(nv[a] == old_view[a]);
                } else if a < i {
                    assert(nv[a] == old_view[a] && nv[b] == old_view[b - 1]);
                    lemma_str_lt_trans(old_view[a].0, key@, old_view[b - 1].0);
                } else if a == i {
                    assert(nv[b] == old_view[b - 1]);
                } else {
                    assert(nv[a] == old_view[a - 1] && nv[b] == old_view[b - 1]);
                }
            }
        }
        self.entries = entries;
    }

    /// Replaces the value of the `i`-th entry, handing back the one it had.
    pub fn set_value_at(&mut self, i: usize, value: V) -> (previous: V)
        requires
            i < old(self)@.len(),
        ensures
            previous == old(self)@[i as int].1,
            final(self)@ == old(self)@.update(i as int, (old(self)@[i as int].0, value)),
    {
        proof {
            use_type_invariant(&*self);
        }
        let ghost old_view = self@;
        let mut entries = Vec::new();
        std::mem::swap(&mut entries, &mut self.entries);
        let mut tail = entries.split_off(i);
        let (k, previous) = tail.remove(0);
        tail.insert(0, (k, value));
        entries.append(&mut tail);
        proof {
            let nv = entries@.map_values(|p: (String, V)| (p.0@, p.1));
            assert(nv =~= old_view.update(i as int, (old_view[i as int].0, value)));
            assert forall|a: int, b: int| 0 <= a < b < nv.len() implies str_lt(
                #[trigger] nv[a].0,
                #[trigger] nv[b].0,
            ) by {
                assert(nv[a].0 == old_view[a].0);
                assert(nv[b].0 == old_view[b].0);
            }
        }
        self.entries = entries;
        previous
    }

    /// Whether some entry has key `key`.
    pub fn contains_key(&self, key: &str) -> (r: bool)
        ensures
            r == has_key(self@, key@),
    {
        self.index_of(key).is_some()
    }

    /// Removes every entry.
    pub fn clear(&mut self)
        ensures
            final(self)@ == Seq::<(Seq<char>, V)>::empty(),
    {
        self.entries = Vec::new();
        assert(self@ =~= Seq::<(Seq<char>, V)>::empty());
    }
}

impl StrMap<String> {
    /// A copy of this map.
    pub fn copy(&self) -> (r: Self)
        ensures
            r@ == self@,
    {
        proof {
            use_type_invariant(self);
        }
        let mut entries: Vec<(String, String)> = Vec::new();
        let mut i: usize = 0;
        while i < self.entries.len()
            invariant
                i <= self.entries@.len(),
                entries@.len() == i,
                forall|j: int| 0 <= j < i ==> #[trigger] entries@[j] == self.entries@[j],
            decreases self.entries.len() - i,
        {
            let k = self.entries[i].0.clone();
            let v = self.entries[i].1.clone();
            entries.push((k, v));
            i += 1;
        }
        assert(entries@ =~= self.entries@);
        StrMap { entries }
    }
}

} // verus!
