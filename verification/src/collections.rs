//! Maps and sets keyed by names, kept in ascending name order.
//!
//! Names are ordered character by character, by code point, with a proper
//! prefix before the longer name: the order in which a `BTreeMap` keyed by
//! `String` walks its keys.
use vstd::prelude::*;
use crate::text::chars_of;

verus! {

/// Whether `a` comes before `b` in name order.
pub open spec fn name_lt(a: Seq<char>, b: Seq<char>) -> bool
    decreases a.len(),
{
    if a.len() == 0 {
        b.len() > 0
    } else if b.len() == 0 {
        false
    } else if a[0] != b[0] {
        a[0] < b[0]
    } else {
        name_lt(a.drop_first(), b.drop_first())
    }
}

pub proof fn lemma_name_lt_irreflexive(a: Seq<char>)
    ensures
        !name_lt(a, a),
    decreases a.len(),
{
    if a.len() > 0 {
        lemma_name_lt_irreflexive(a.drop_first());
    }
}

pub proof fn lemma_name_lt_transitive(a: Seq<char>, b: Seq<char>, c: Seq<char>)
    requires
        name_lt(a, b),
        name_lt(b, c),
    ensures
        name_lt(a, c),
    decreases a.len(),
{
    if a.len() > 0 && b.len() > 0 && c.len() > 0 && a[0] == b[0] && b[0] == c[0] {
        lemma_name_lt_transitive(a.drop_first(), b.drop_first(), c.drop_first());
    }
}

pub proof fn lemma_name_lt_total(a: Seq<char>, b: Seq<char>)
    ensures
        a == b || name_lt(a, b) || name_lt(b, a),
    decreases a.len(),
{
    if a.len() > 0 && b.len() > 0 && a[0] == b[0] {
        lemma_name_lt_total(a.drop_first(), b.drop_first());
        if a.drop_first() == b.drop_first() {
            assert(a =~= seq![a[0]] + a.drop_first());
            assert(b =~= seq![b[0]] + b.drop_first());
        }
    } else if a.len() == 0 && b.len() == 0 {
        assert(a =~= b);
    }
}

pub proof fn lemma_name_lt_asymmetric(a: Seq<char>, b: Seq<char>)
    requires
        name_lt(a, b),
    ensures
        !name_lt(b, a),
{
    if name_lt(b, a) {
        lemma_name_lt_transitive(a, b, a);
        lemma_name_lt_irreflexive(a);
    }
}

/// Compares two names: negative when `a` comes first, zero when equal,
/// positive when `b` comes first.
pub fn compare_names(a: &str, b: &str) -> (r: i8)
    ensures
        r < 0 <==> name_lt(a@, b@),
        r == 0 <==> a@ == b@,
        r > 0 <==> name_lt(b@, a@),
{
    let x = chars_of(a);
    let y = chars_of(b);
    let mut i: usize = 0;
    proof {
        lemma_name_lt_total(a@, b@);
        lemma_name_lt_irreflexive(a@);
        assert(x@.skip(0) =~= x@);
        assert(y@.skip(0) =~= y@);
        assert(x@.take(0) =~= y@.take(0));
    }
    while i < x.len() && i < y.len() && x[i] == y[i]
        invariant
            x@ == a@,
            y@ == b@,
            i <= x@.len(),
            i <= y@.len(),
            x@.take(i as int) == y@.take(i as int),
            name_lt(a@, b@) == name_lt(x@.skip(i as int), y@.skip(i as int)),
            name_lt(b@, a@) == name_lt(y@.skip(i as int), x@.skip(i as int)),
        decreases x@.len() - i,
    {
        assert(x@.skip(i as int).drop_first() =~= x@.skip(i + 1));
        assert(y@.skip(i as int).drop_first() =~= y@.skip(i + 1));
        assert(x@.take(i + 1) =~= x@.take(i as int).push(x@[i as int]));
        assert(y@.take(i + 1) =~= y@.take(i as int).push(y@[i as int]));
        i = i + 1;
    }
    if i == x.len() && i == y.len() {
        assert(x@ =~= x@.take(i as int));
        assert(y@ =~= y@.take(i as int));
        0
    } else if i == x.len() {
        assert(x@ =~= x@.take(i as int));
        assert(y@ != x@) by {
            assert(y@.len() != x@.len());
        }
        -1
    } else if i == y.len() {
        assert(y@ =~= y@.take(i as int));
        assert(y@ != x@) by {
            assert(y@.len() != x@.len());
        }
        1
    } else if x[i] < y[i] {
        assert(x@ != y@) by {
            assert(x@[i as int] != y@[i as int]);
        }
        -1
    } else {
        assert(x@ != y@) by {
            assert(x@[i as int] != y@[i as int]);
        }
        1
    }
}

/// Where `k` goes among ascending `keys`: the number of keys before it.
pub open spec fn spec_insert_pos(keys: Seq<Seq<char>>, k: Seq<char>) -> int
    decreases keys.len(),
{
    if keys.len() == 0 {
        0
    } else if name_lt(keys[0], k) {
        1 + spec_insert_pos(keys.drop_first(), k)
    } else {
        0
    }
}

pub proof fn lemma_insert_pos_bounds(keys: Seq<Seq<char>>, k: Seq<char>)
    ensures
        0 <= spec_insert_pos(keys, k) <= keys.len(),
    decreases keys.len(),
{
    if keys.len() > 0 {
        lemma_insert_pos_bounds(keys.drop_first(), k);
    }
}

pub proof fn lemma_insert_pos(keys: Seq<Seq<char>>, k: Seq<char>, p: int)
    requires
        0 <= p <= keys.len(),
        forall|i: int| 0 <= i < p ==> name_lt(#[trigger] keys[i], k),
        p < keys.len() ==> !name_lt(keys[p], k),
    ensures
        spec_insert_pos(keys, k) == p,
    decreases keys.len(),
{
    if keys.len() > 0 && p > 0 {
        assert(name_lt(keys[0], k));
        assert forall|i: int| 0 <= i < p - 1 implies name_lt(#[trigger] keys.drop_first()[i], k) by {
            assert(keys.drop_first()[i] == keys[i + 1]);
        }
        lemma_insert_pos(keys.drop_first(), k, p - 1);
    }
}

/// The keys of a sequence of entries.
pub open spec fn spec_keys_of<V>(entries: Seq<(Seq<char>, V)>) -> Seq<Seq<char>> {
    Seq::new(entries.len(), |i: int| entries[i].0)
}

/// The entries of a map in ascending key order after storing `v` under
/// `k`: replaced in place when `k` is a key, else inserted where it belongs.
pub open spec fn spec_entries_insert<V>(entries: Seq<(Seq<char>, V)>, k: Seq<char>, v: V) -> Seq<
    (Seq<char>, V),
> {
    let p = spec_insert_pos(spec_keys_of(entries), k);
    if p < entries.len() && entries[p].0 == k {
        entries.update(p, (k, v))
    } else {
        entries.insert(p, (k, v))
    }
}

/// A map from names to values, its entries kept in ascending name order.
#[derive(Clone, Debug, PartialEq, Eq)]
pub struct NameMap<V> {
    pub entries: Vec<(String, V)>,
}

impl<V> NameMap<V> {
    /// The keys in entry order.
    pub open spec fn keys(&self) -> Seq<Seq<char>> {
        self.entries@.map_values(|e: (String, V)| e.0@)
    }

    /// The entries with keys as character sequences.
    pub open spec fn spec_entries(&self) -> Seq<(Seq<char>, V)> {
        self.entries@.map_values(|e: (String, V)| (e.0@, e.1))
    }

    /// Keys strictly ascending: no key occurs twice.
    pub open spec fn wf(&self) -> bool {
        forall|i: int, j: int|
            0 <= i < j < self.entries@.len() ==> name_lt(
                #[trigger] self.entries@[i].0@,
                #[trigger] self.entries@[j].0@,
            )
    }

    /// Whether `k` is a key.
    pub open spec fn spec_contains(&self, k: Seq<char>) -> bool {
        exists|i: int| 0 <= i < self.entries@.len() && #[trigger] self.entries@[i].0@ == k
    }

    /// An entry index that holds `k`, when `k` is a key.
    pub open spec fn spec_index_of(&self, k: Seq<char>) -> int {
        choose|i: int| 0 <= i < self.entries@.len() && #[trigger] self.entries@[i].0@ == k
    }

    /// The value stored under `k`.
    pub open spec fn spec_get(&self, k: Seq<char>) -> Option<V> {
        if self.spec_contains(k) {
            Some(self.entries@[self.spec_index_of(k)].1)
        } else {
            None
        }
    }

    pub proof fn lemma_unique(&self, i: int, j: int)
        requires
            self.wf(),
            0 <= i < self.entries@.len(),
            0 <= j < self.entries@.len(),
            self.entries@[i].0@ == self.entries@[j].0@,
        ensures
            i == j,
    {
        if i < j {
            lemma_name_lt_irreflexive(self.entries@[i].0@);
        } else if j < i {
            lemma_name_lt_irreflexive(self.entries@[i].0@);
        }
    }

    pub proof fn lemma_get_at(&self, i: int)
        requires
            self.wf(),
            0 <= i < self.entries@.len(),
        ensures
            self.spec_get(self.entries@[i].0@) == Some(self.entries@[i].1),
    {
        let k = self.entries@[i].0@;
        assert(self.spec_contains(k));
        let c = self.spec_index_of(k);
        self.lemma_unique(c, i);
    }

    /// The empty map.
    pub fn new() -> (m: Self)
        ensures
            m.wf(),
            m.entries@.len() == 0,
            forall|k: Seq<char>| m.spec_get(k) is None,
    {
        NameMap { entries: Vec::new() }
    }

    /// Number of entries.
    pub fn len(&self) -> (n: usize)
        ensures
            n == self.entries@.len(),
    {
        self.entries.len()
    }

    /// Where `key` stands, or where it would be inserted.
    fn position(&self, key: &str) -> (r: (usize, bool))
        requires
            self.wf(),
        ensures
            r.0 <= self.entries@.len(),
            forall|i: int| 0 <= i < r.0 ==> name_lt(#[trigger] self.entries@[i].0@, key@),
            r.1 ==> r.0 < self.entries@.len() && self.entries@[r.0 as int].0@ == key@,
            !r.1 ==> forall|i: int|
                r.0 <= i < self.entries@.len() ==> name_lt(key@, #[trigger] self.entries@[i].0@),
    {
        let mut i: usize = 0;
        while i < self.entries.len()
            invariant
                self.wf(),
                i <= self.entries@.len(),
                forall|j: int| 0 <= j < i ==> name_lt(#[trigger] self.entries@[j].0@, key@),
            decreases self.entries@.len() - i,
        {
            let c = compare_names(self.entries[i].0.as_str(), key);
            if c == 0 {
                return (i, true);
            }
            if c > 0 {
                assert forall|j: int| i <= j < self.entries@.len() implies name_lt(
                    key@,
                    #[trigger] self.entries@[j].0@,
                ) by {
                    if j > i {
                        lemma_name_lt_transitive(key@, self.entries@[i as int].0@, self.entries@[j].0@);
                    }
                }
                return (i, false);
            }
            i = i + 1;
        }
        (i, false)
    }

    /// Removes `key` and gives back what was stored under it.
    pub fn take(&mut self, key: &str) -> (r: Option<V>)
        requires
            old(self).wf(),
        ensures
            final(self).wf(),
            r == old(self).spec_get(key@),
            final(self).spec_get(key@) is None,
            forall|k: Seq<char>| k != key@ ==> final(self).spec_get(k) == old(self).spec_get(k),
    {
        let (i, found) = self.position(key);
        if !found {
            proof {
                if self.spec_contains(key@) {
                    lemma_name_lt_irreflexive(key@);
                }
            }
            return None;
        }
        proof {
            self.lemma_get_at(i as int);
        }
        let ghost old_entries = self.entries@;
        let (_, v) = self.entries.remove(i);
        proof {
            let e = self.entries@;
            assert(e =~= old_entries.remove(i as int));
            assert forall|a: int, b: int| 0 <= a < b < e.len() implies name_lt(#[trigger] e[a].0@, #[trigger] e[b].0@) by {
                let a2 = if a < i { a } else { a + 1 };
                let b2 = if b < i { b } else { b + 1 };
                assert(e[a] == old_entries[a2]);
                assert(e[b] == old_entries[b2]);
            }
            assert forall|k: Seq<char>| k != key@ implies #[trigger] self.spec_get(k) == old(self).spec_get(k) by {
                if old(self).spec_contains(k) {
                    let c = old(self).spec_index_of(k);
                    old(self).lemma_get_at(c);
                    let c2 = if c < i { c } else { c - 1 };
                    assert(c != i);
                    assert(self.entries@[c2] == old_entries[c]);
                    self.lemma_get_at(c2);
                }
                if self.spec_contains(k) {
                    let c = self.spec_index_of(k);
                    let c2 = if c < i { c } else { c + 1 };
                    assert(old_entries[c2] == self.entries@[c]);
                    old(self).lemma_get_at(c2);
                    self.lemma_get_at(c);
                }
            }
            if self.spec_contains(key@) {
                let c = self.spec_index_of(key@);
                let c2 = if c < i { c } else { c + 1 };
                assert(old_entries[c2] == self.entries@[c]);
                old(self).lemma_unique(c2, i as int);
            }
        }
        Some(v)
    }

    /// Removes `key` and what was stored under it.
    pub fn remove(&mut self, key: &str)
        requires
            old(self).wf(),
        ensures
            final(self).wf(),
            final(self).spec_get(key@) is None,
            forall|k: Seq<char>| k != key@ ==> final(self).spec_get(k) == old(self).spec_get(k),
    {
        let (i, found) = self.position(key);
        if !found {
            proof {
                if self.spec_contains(key@) {
                    let c = self.spec_index_of(key@);
                    if c < i {
                        lemma_name_lt_irreflexive(key@);
                    } else {
                        lemma_name_lt_irreflexive(key@);
                    }
                }
            }
            return;
        }
        let ghost old_entries = self.entries@;
        self.entries.remove(i);
        proof {
            let e = self.entries@;
            assert(e =~= old_entries.remove(i as int));
            assert forall|a: int, b: int| 0 <= a < b < e.len() implies name_lt(#[trigger] e[a].0@, #[trigger] e[b].0@) by {
                let a2 = if a < i { a } else { a + 1 };
                let b2 = if b < i { b } else { b + 1 };
                assert(e[a] == old_entries[a2]);
                assert(e[b] == old_entries[b2]);
            }
            assert forall|k: Seq<char>| k != key@ implies #[trigger] self.spec_get(k) == old(self).spec_get(k) by {
                if old(self).spec_contains(k) {
                    let c = old(self).spec_index_of(k);
                    old(self).lemma_get_at(c);
                    let c2 = if c < i { c } else { c - 1 };
                    assert(c != i);
                    assert(self.entries@[c2] == old_entries[c]);
                    self.lemma_get_at(c2);
                }
                if self.spec_contains(k) {
                    let c = self.spec_index_of(k);
                    let c2 = if c < i { c } else { c + 1 };
                    assert(old_entries[c2] == self.entries@[c]);
                    old(self).lemma_get_at(c2);
                    self.lemma_get_at(c);
                }
            }
            if self.spec_contains(key@) {
                let c = self.spec_index_of(key@);
                let c2 = if c < i { c } else { c + 1 };
                assert(old_entries[c2] == self.entries@[c]);
                old(self).lemma_unique(c2, i as int);
            }
        }
    }

    /// The value stored under `key`.
    pub fn get(&self, key: &str) -> (r: Option<&V>)
        requires
            self.wf(),
        ensures
            match r {
                Some(v) => self.spec_get(key@) == Some(*v),
                None => self.spec_get(key@) is None,
            },
    {
        let (i, found) = self.position(key);
        if found {
            proof {
                self.lemma_get_at(i as int);
            }
            Some(&self.entries[i].1)
        } else {
            assert(!self.spec_contains(key@)) by {
                if self.spec_contains(key@) {
                    let c = choose|c: int|
                        0 <= c < self.entries@.len() && #[trigger] self.entries@[c].0@ == key@;
                    lemma_name_lt_irreflexive(key@);
                    if c < i {
                        assert(name_lt(self.entries@[c].0@, key@));
                    } else {
                        assert(name_lt(key@, self.entries@[c].0@));
                    }
                }
            }
            None
        }
    }

    /// Whether `key` is a key.
    pub fn contains_key(&self, key: &str) -> (b: bool)
        requires
            self.wf(),
        ensures
            b == self.spec_contains(key@),
    {
        match self.get(key) {
            Some(_) => true,
            None => false,
        }
    }

    /// Stores `value` under `key`, replacing what was stored there.
    pub fn insert(&mut self, key: String, value: V)
        requires
            old(self).wf(),
        ensures
            final(self).wf(),
            final(self).spec_get(key@) == Some(value),
            forall|k: Seq<char>| k != key@ ==> final(self).spec_get(k) == old(self).spec_get(k),
            final(self).spec_entries() == spec_entries_insert(old(self).spec_entries(), key@, value),
    {
        let (i, found) = self.position(key.as_str());
        let ghost old_entries = self.entries@;
        let ghost kv = key@;
        let ghost vv = value;
        proof {
            let ks = spec_keys_of(old(self).spec_entries());
            assert(ks =~= old(self).keys());
            if i < old_entries.len() && !found {
                lemma_name_lt_asymmetric(kv, old_entries[i as int].0@);
            }
            lemma_name_lt_irreflexive(kv);
            assert(forall|j: int| 0 <= j < old_entries.len() ==> ks[j] == old_entries[j].0@);
            lemma_insert_pos(ks, kv, i as int);
        }
        if found {
            self.entries.set(i, (key, value));
        } else {
            self.entries.insert(i, (key, value));
        }
        assert(self.wf()) by {
            assert forall|a: int, b: int| 0 <= a < b < self.entries@.len() implies name_lt(
                #[trigger] self.entries@[a].0@,
                #[trigger] self.entries@[b].0@,
            ) by {
                if found {
                    if a == i {
                        assert(name_lt(kv, old_entries[b].0@));
                    }
                    if b == i {
                        assert(name_lt(old_entries[a].0@, kv));
                    }
                } else {
                    if a < i && b == i {
                    } else if a < i && b > i {
                        assert(self.entries@[b] == old_entries[b - 1]);
                    } else if a == i {
                        assert(self.entries@[b] == old_entries[b - 1]);
                    } else if a > i {
                        assert(self.entries@[a] == old_entries[a - 1]);
                        assert(self.entries@[b] == old_entries[b - 1]);
                    }
                }
            }
        }
        proof {
            if found {
                assert(self.spec_entries() =~= old(self).spec_entries().update(i as int, (kv, vv)));
            } else {
                if i < old_entries.len() {
                    lemma_name_lt_irreflexive(kv);
                }
                assert(self.spec_entries() =~= old(self).spec_entries().insert(i as int, (kv, vv)));
            }
            self.lemma_get_at(i as int);
            assert forall|k: Seq<char>| k != kv implies self.spec_get(k) == old(self).spec_get(
                k,
            ) by {
                if old(self).spec_contains(k) {
                    let c = choose|c: int|
                        0 <= c < old_entries.len() && #[trigger] old_entries[c].0@ == k;
                    old(self).lemma_get_at(c);
                    let d = if !found && c >= i { c + 1 } else { c };
                    assert(self.entries@[d] == old_entries[c]);
                    self.lemma_get_at(d);
                } else if self.spec_contains(k) {
                    let c = choose|c: int|
                        0 <= c < self.entries@.len() && #[trigger] self.entries@[c].0@ == k;
                    if found {
                        assert(old_entries[c].0@ == k);
                    } else if c < i {
                        assert(old_entries[c].0@ == k);
                    } else if c > i {
                        assert(old_entries[c - 1].0@ == k);
                    }
                }
            }
        }
    }
}

/// A set of names, kept in ascending name order.
#[derive(Clone, Debug, PartialEq, Eq)]
pub struct NameSet {
    pub map: NameMap<()>,
}

impl NameSet {
    /// The members in ascending order.
    pub open spec fn members(&self) -> Seq<Seq<char>> {
        self.map.keys()
    }

    pub open spec fn wf(&self) -> bool {
        self.map.wf()
    }

    /// Whether `k` is a member.
    pub open spec fn spec_contains(&self, k: Seq<char>) -> bool {
        self.map.spec_contains(k)
    }

    /// The members as a set.
    pub open spec fn view_set(&self) -> Set<Seq<char>> {
        Set::new(|k: Seq<char>| self.spec_contains(k))
    }

    /// The empty set.
    pub fn new() -> (s: Self)
        ensures
            s.wf(),
            s.members().len() == 0,
            forall|k: Seq<char>| !s.spec_contains(k),
            s.view_set() == Set::<Seq<char>>::empty(),
    {
        let s = NameSet { map: NameMap::new() };
        assert(s.view_set() =~= Set::<Seq<char>>::empty());
        s
    }

    /// Whether `name` is a member.
    pub fn contains(&self, name: &str) -> (b: bool)
        requires
            self.wf(),
        ensures
            b == self.spec_contains(name@),
    {
        self.map.contains_key(name)
    }

    /// Adds `name`.
    pub fn insert(&mut self, name: String)
        requires
            old(self).wf(),
        ensures
            final(self).wf(),
            final(self).spec_contains(name@),
            forall|k: Seq<char>| k != name@ ==> final(self).spec_contains(k) == old(self).spec_contains(k),
            final(self).view_set() == old(self).view_set().insert(name@),
    {
        let ghost n = name@;
        self.map.insert(name, ());
        proof {
            assert forall|k: Seq<char>| k != n implies self.spec_contains(k) == old(self).spec_contains(k) by {
                assert(self.map.spec_get(k) == old(self).map.spec_get(k));
            }
            assert(self.view_set() =~= old(self).view_set().insert(n));
        }
    }

    /// Removes `name`.
    pub fn remove(&mut self, name: &str)
        requires
            old(self).wf(),
        ensures
            final(self).wf(),
            final(self).view_set() == old(self).view_set().remove(name@),
    {
        let ghost old_map = self.map;
        self.map.remove(name);
        proof {
            assert forall|k: Seq<char>| #[trigger] self.view_set().contains(k) == old(self).view_set().remove(name@).contains(k) by {
                if k != name@ {
                    assert(self.map.spec_get(k) == old_map.spec_get(k));
                }
            }
            assert(self.view_set() =~= old(self).view_set().remove(name@));
        }
    }

    /// The members in ascending order.
    pub fn to_vec(&self) -> (v: Vec<String>)
        ensures
            v@.map_values(|s: String| s@) == self.members(),
    {
        let mut v: Vec<String> = Vec::new();
        let mut i: usize = 0;
        while i < self.map.entries.len()
            invariant
                i <= self.map.entries@.len(),
                v@.map_values(|s: String| s@) == self.members().take(i as int),
            decreases self.map.entries@.len() - i,
        {
            let ghost old_v = v@;
            let name = self.map.entries[i].0.clone();
            v.push(name);
            assert(v@ =~= old_v.push(name));
            assert(name@ == self.members()[i as int]);
            assert(self.members().take(i + 1) =~= self.members().take(i as int).push(
                self.members()[i as int],
            ));
            i = i + 1;
            assert(v@.map_values(|s: String| s@) =~= self.members().take(i as int));
        }
        assert(self.members().take(i as int) =~= self.members());
        v
    }

    /// A copy of the set.
    pub fn copy(&self) -> (r: NameSet)
        requires
            self.wf(),
        ensures
            r.wf(),
            r.members() == self.members(),
            forall|k: Seq<char>| r.spec_contains(k) == self.spec_contains(k),
    {
        let mut entries: Vec<(String, ())> = Vec::new();
        let mut i: usize = 0;
        while i < self.map.entries.len()
            invariant
                self.wf(),
                i <= self.map.entries@.len(),
                entries@.len() == i,
                forall|j: int| 0 <= j < i ==> #[trigger] entries@[j].0@ == self.map.entries@[j].0@,
            decreases self.map.entries@.len() - i,
        {
            let name = self.map.entries[i].0.clone();
            entries.push((name, ()));
            i = i + 1;
        }
        let r = NameSet { map: NameMap { entries } };
        assert(r.members() =~= self.members());
        assert forall|k: Seq<char>| r.spec_contains(k) == self.spec_contains(k) by {
            if r.spec_contains(k) {
                let c = choose|c: int| 0 <= c < r.map.entries@.len() && #[trigger] r.map.entries@[c].0@ == k;
                assert(self.map.entries@[c].0@ == k);
            }
            if self.spec_contains(k) {
                let c = choose|c: int| 0 <= c < self.map.entries@.len() && #[trigger] self.map.entries@[c].0@ == k;
                assert(r.map.entries@[c].0@ == k);
            }
        }
        r
    }
}

} // verus!
