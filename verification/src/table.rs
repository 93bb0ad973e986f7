//! Tables keyed by text: each key at most once, kept in the order in
//! which keys were first added, a new value for a present key replacing the
//! old one in place.
use vstd::prelude::*;
use crate::text::{chars_eq, to_chars};

verus! {

/// No key occurs twice among `p`.
pub open spec fn keys_distinct<V>(p: Seq<(Seq<char>, V)>) -> bool {
    forall|i: int, j: int|
        0 <= i < p.len() && 0 <= j < p.len() && i != j ==> #[trigger] p[i].0 != #[trigger] p[j].0
}

/// Whether `k` is one of the keys of `p`.
pub open spec fn has_key<V>(p: Seq<(Seq<char>, V)>, k: Seq<char>) -> bool {
    exists|i: int| 0 <= i < p.len() && #[trigger] p[i].0 == k
}

/// `p` with value `v` stored under `k`: the pair with key `k` takes the
/// new value in place, or `(k, v)` goes last when `k` is not a key of `p`.
pub open spec fn upsert<V>(p: Seq<(Seq<char>, V)>, k: Seq<char>, v: V) -> Seq<(Seq<char>, V)> {
    if has_key(p, k) {
        p.update(choose|i: int| 0 <= i < p.len() && #[trigger] p[i].0 == k, (k, v))
    } else {
        p.push((k, v))
    }
}

/// With distinct keys, storing under the key of pair `i` replaces pair `i`.
pub proof fn lemma_upsert_at<V>(p: Seq<(Seq<char>, V)>, i: int, v: V)
    requires
        keys_distinct(p),
        0 <= i < p.len(),
    ensures
        upsert(p, p[i].0, v) == p.update(i, (p[i].0, v)),
{
    let k = p[i].0;
    assert(has_key(p, k));
    let q = upsert(p, k, v);
    assert forall|j: int| 0 <= j < p.len() implies q[j] == p.update(i, (k, v))[j] by {
        if j == i && q[j] != (k, v) {
            assert(q[j] == p[j]);
        }
    }
    assert(q =~= p.update(i, (k, v)));
}

/// The map that a sequence of distinct-keyed pairs stands for.
pub open spec fn pairs_map<V>(p: Seq<(Seq<char>, V)>) -> Map<Seq<char>, V> {
    Map::new(
        |k: Seq<char>| has_key(p, k),
        |k: Seq<char>| p[choose|i: int| 0 <= i < p.len() && #[trigger] p[i].0 == k].1,
    )
}

/// With distinct keys, the map has as many keys as there are pairs.
pub proof fn lemma_pairs_map_len<V>(p: Seq<(Seq<char>, V)>)
    requires
        keys_distinct(p),
    ensures
        pairs_map(p).dom().len() == p.len(),
{
    let ks = p.map_values(|e: (Seq<char>, V)| e.0);
    assert(ks.no_duplicates()) by {
        assert forall|i: int, j: int| 0 <= i < ks.len() && 0 <= j < ks.len() && i != j implies ks[i]
            != ks[j] by {
            assert(ks[i] == p[i].0 && ks[j] == p[j].0);
        }
    }
    ks.unique_seq_to_set();
    assert forall|k: Seq<char>| pairs_map(p).dom().contains(k) <==> ks.to_set().contains(k) by {
        if has_key(p, k) {
            let i = choose|i: int| 0 <= i < p.len() && #[trigger] p[i].0 == k;
            assert(ks[i] == k);
        }
        if ks.contains(k) {
            let i = choose|i: int| 0 <= i < ks.len() && ks[i] == k;
            assert(p[i].0 == k);
        }
    }
    assert(pairs_map(p).dom() =~= ks.to_set());
}

/// The pair at position `i` is what the map holds for its key.
pub proof fn lemma_pairs_map_at<V>(p: Seq<(Seq<char>, V)>, i: int)
    requires
        keys_distinct(p),
        0 <= i < p.len(),
    ensures
        pairs_map(p).contains_key(p[i].0),
        pairs_map(p)[p[i].0] == p[i].1,
{
    assert(has_key(p, p[i].0));
    let j = choose|j: int| 0 <= j < p.len() && #[trigger] p[j].0 == p[i].0;
    assert(j == i);
}

/// Replacing the value of the pair at `i` updates the map at its key.
pub proof fn lemma_pairs_map_update<V>(p: Seq<(Seq<char>, V)>, i: int, v: V)
    requires
        keys_distinct(p),
        0 <= i < p.len(),
    ensures
        keys_distinct(p.update(i, (p[i].0, v))),
        pairs_map(p.update(i, (p[i].0, v))) == pairs_map(p).insert(p[i].0, v),
{
    let q = p.update(i, (p[i].0, v));
    assert(keys_distinct(q)) by {
        assert forall|a: int, b: int| 0 <= a < q.len() && 0 <= b < q.len() && a != b implies #[trigger] q[a].0
            != #[trigger] q[b].0 by {
            assert(q[a].0 == p[a].0);
            assert(q[b].0 == p[b].0);
        }
    }
    assert forall|k: Seq<char>| has_key(q, k) <==> has_key(p, k) || k == p[i].0 by {
        if has_key(p, k) {
            let j = choose|j: int| 0 <= j < p.len() && #[trigger] p[j].0 == k;
            assert(q[j].0 == k);
        }
        if has_key(q, k) {
            let j = choose|j: int| 0 <= j < q.len() && #[trigger] q[j].0 == k;
            assert(p[j].0 == k);
        }
        if k == p[i].0 {
            assert(q[i].0 == k);
        }
    }
    assert forall|k: Seq<char>| #[trigger] pairs_map(q).contains_key(k) implies pairs_map(q)[k]
        == pairs_map(p).insert(p[i].0, v)[k] by {
        let j = choose|j: int| 0 <= j < q.len() && #[trigger] q[j].0 == k;
        lemma_pairs_map_at(q, j);
        if j != i {
            assert(p[j] == q[j]);
            lemma_pairs_map_at(p, j);
        }
    }
    assert(pairs_map(q) =~= pairs_map(p).insert(p[i].0, v));
}

/// Appending a pair with a new key adds it to the map.
pub proof fn lemma_pairs_map_push<V>(p: Seq<(Seq<char>, V)>, k: Seq<char>, v: V)
    requires
        keys_distinct(p),
        !has_key(p, k),
    ensures
        keys_distinct(p.push((k, v))),
        pairs_map(p.push((k, v))) == pairs_map(p).insert(k, v),
{
    let q = p.push((k, v));
    assert(keys_distinct(q)) by {
        assert forall|a: int, b: int| 0 <= a < q.len() && 0 <= b < q.len() && a != b implies #[trigger] q[a].0
            != #[trigger] q[b].0 by {
            if a < p.len() && b < p.len() {
                assert(q[a] == p[a] && q[b] == p[b]);
            } else if a < p.len() {
                assert(q[a] == p[a]);
            } else {
                assert(q[b] == p[b]);
            }
        }
    }
    assert forall|x: Seq<char>| has_key(q, x) <==> has_key(p, x) || x == k by {
        if has_key(p, x) {
            let j = choose|j: int| 0 <= j < p.len() && #[trigger] p[j].0 == x;
            assert(q[j].0 == x);
        }
        if has_key(q, x) {
            let j = choose|j: int| 0 <= j < q.len() && #[trigger] q[j].0 == x;
            if j < p.len() {
                assert(p[j].0 == x);
            }
        }
        if x == k {
            assert(q[p.len() as int].0 == x);
        }
    }
    assert forall|x: Seq<char>| #[trigger] pairs_map(q).contains_key(x) implies pairs_map(q)[x]
        == pairs_map(p).insert(k, v)[x] by {
        let j = choose|j: int| 0 <= j < q.len() && #[trigger] q[j].0 == x;
        lemma_pairs_map_at(q, j);
        if j < p.len() {
            assert(p[j] == q[j]);
            lemma_pairs_map_at(p, j);
        }
    }
    assert(pairs_map(q) =~= pairs_map(p).insert(k, v));
}

/// The map obtained by inserting `pairs` into `m` one after the other, so
/// that the last pair with a given key decides its value.
pub open spec fn insert_pairs(
    m: Map<Seq<char>, Seq<char>>,
    pairs: Seq<(Seq<char>, Seq<char>)>,
) -> Map<Seq<char>, Seq<char>>
    decreases pairs.len(),
{
    if pairs.len() == 0 {
        m
    } else {
        insert_pairs(m, pairs.drop_last()).insert(pairs.last().0, pairs.last().1)
    }
}

/// Inserting one more pair at the end inserts it into the result.
pub proof fn lemma_insert_pairs_push(
    m: Map<Seq<char>, Seq<char>>,
    pairs: Seq<(Seq<char>, Seq<char>)>,
    x: (Seq<char>, Seq<char>),
)
    ensures
        insert_pairs(m, pairs.push(x)) == insert_pairs(m, pairs).insert(x.0, x.1),
{
    assert(pairs.push(x).drop_last() =~= pairs);
}

/// With distinct keys, storing `v` under `k` stores it in the map, and
/// keeps the keys distinct.
pub proof fn lemma_pairs_map_upsert<V>(p: Seq<(Seq<char>, V)>, k: Seq<char>, v: V)
    requires
        keys_distinct(p),
    ensures
        keys_distinct(upsert(p, k, v)),
        pairs_map(upsert(p, k, v)) == pairs_map(p).insert(k, v),
{
    if has_key(p, k) {
        let i = choose|i: int| 0 <= i < p.len() && #[trigger] p[i].0 == k;
        lemma_upsert_at(p, i, v);
        lemma_pairs_map_update(p, i, v);
    } else {
        lemma_pairs_map_push(p, k, v);
    }
}

/// A table from text keys to values of type `V`.
pub struct Table<V> {
    entries: Vec<(Vec<char>, V)>,
}

impl<V> Table<V> {
    /// The entries, keys by their characters, in table order.
    pub closed spec fn pairs(self) -> Seq<(Seq<char>, V)> {
        self.entries@.map_values(|e: (Vec<char>, V)| (e.0@, e.1))
    }

    /// The entries as a map.
    pub open spec fn map(self) -> Map<Seq<char>, V> {
        pairs_map(self.pairs())
    }

    /// No key occurs twice.
    #[verifier::type_invariant]
    pub open spec fn inv(self) -> bool {
        keys_distinct(self.pairs())
    }

    /// An empty table.
    pub fn new() -> (t: Self)
        ensures
            t.pairs() == Seq::<(Seq<char>, V)>::empty(),
            t.map() == Map::<Seq<char>, V>::empty(),
    {
        let t = Table { entries: Vec::new() };
        assert(t.pairs() =~= Seq::<(Seq<char>, V)>::empty());
        assert(t.map() =~= Map::<Seq<char>, V>::empty());
        t
    }

    /// The number of entries.
    pub fn len(&self) -> (n: usize)
        ensures
            n == self.pairs().len(),
            n == self.map().dom().len(),
    {
        proof {
            use_type_invariant(self);
            lemma_pairs_map_len(self.pairs());
        }
        self.entries.len()
    }

    /// The key of entry `i`.
    pub fn key_at(&self, i: usize) -> (k: &Vec<char>)
        requires
            i < self.pairs().len(),
        ensures
            k@ == self.pairs()[i as int].0,
    {
        &self.entries[i].0
    }

    /// The value of entry `i`.
    pub fn value_at(&self, i: usize) -> (v: &V)
        requires
            i < self.pairs().len(),
        ensures
            *v == self.pairs()[i as int].1,
    {
        &self.entries[i].1
    }

    /// The position of key `k`, if the table has it.
    fn position(&self, k: &Vec<char>) -> (r: Option<usize>)
        ensures
            r matches Some(i) ==> i < self.pairs().len() && self.pairs()[i as int].0 == k@,
            r is None ==> !has_key(self.pairs(), k@),
    {
        let mut i: usize = 0;
        while i < self.entries.len()
            invariant
                i <= self.entries.len(),
                forall|j: int| 0 <= j < i ==> #[trigger] self.pairs()[j].0 != k@,
            decreases self.entries.len() - i,
        {
            if chars_eq(&self.entries[i].0, k) {
                return Some(i);
            }
            i = i + 1;
        }
        None
    }

    /// The value stored under `k`.
    pub fn get(&self, k: &Vec<char>) -> (r: Option<&V>)
        ensures
            r matches Some(v) ==> self.map().contains_key(k@) && *v == self.map()[k@],
            r is None ==> !self.map().contains_key(k@),
    {
        proof {
            use_type_invariant(self);
        }
        match self.position(k) {
            Some(i) => {
                proof {
                    lemma_pairs_map_at(self.pairs(), i as int);
                }
                Some(&self.entries[i].1)
            },
            None => None,
        }
    }

    /// Whether the table has key `k`.
    pub fn contains_key(&self, k: &Vec<char>) -> (r: bool)
        ensures
            r == self.map().contains_key(k@),
    {
        self.get(k).is_some()
    }

    /// Stores `v` under `k`: a present key keeps its place and takes the new
    /// value, a new key goes last.
    pub fn insert(&mut self, k: Vec<char>, v: V)
        ensures
            final(self).map() == old(self).map().insert(k@, v),
            final(self).pairs() == upsert(old(self).pairs(), k@, v),
    {
        proof {
            use_type_invariant(&*self);
        }
        let ghost p = self.pairs();
        let pos = self.position(&k);
        let mut entries: Vec<(Vec<char>, V)> = Vec::new();
        std::mem::swap(&mut entries, &mut self.entries);
        let ghost kv = k@;
        match pos {
            Some(i) => {
                entries.set(i, (k, v));
                proof {
                    lemma_upsert_at(p, i as int, v);
                    lemma_pairs_map_update(p, i as int, v);
                    assert(entries@.map_values(|e: (Vec<char>, V)| (e.0@, e.1)) =~= p.update(
                        i as int,
                        (kv, v),
                    ));
                }
            },
            None => {
                entries.push((k, v));
                proof {
                    lemma_pairs_map_push(p, kv, v);
                    assert(entries@.map_values(|e: (Vec<char>, V)| (e.0@, e.1)) =~= p.push((kv, v)));
                }
            },
        }
        self.entries = entries;
    }
}

/// A table from text to text, as the headers and parameters of requests and
/// responses are kept.
pub struct StrMap {
    table: Table<String>,
}

impl View for StrMap {
    type V = Map<Seq<char>, Seq<char>>;

    open spec fn view(&self) -> Map<Seq<char>, Seq<char>> {
        pairs_map(self.pairs())
    }
}

impl StrMap {
    /// The entries, in table order, as text.
    pub closed spec fn pairs(self) -> Seq<(Seq<char>, Seq<char>)> {
        self.table.pairs().map_values(|e: (Seq<char>, String)| (e.0, e.1@))
    }

    /// No key occurs twice.
    #[verifier::type_invariant]
    pub open spec fn inv(self) -> bool {
        keys_distinct(self.pairs())
    }

    proof fn lemma_has_key(self, k: Seq<char>)
        ensures
            has_key(self.pairs(), k) <==> has_key(self.table.pairs(), k),
    {
        if has_key(self.pairs(), k) {
            let i = choose|i: int| 0 <= i < self.pairs().len() && #[trigger] self.pairs()[i].0 == k;
            assert(self.table.pairs()[i].0 == k);
        }
        if has_key(self.table.pairs(), k) {
            let i = choose|i: int| 0 <= i < self.table.pairs().len() && #[trigger] self.table.pairs()[i].0 == k;
            assert(self.pairs()[i].0 == k);
        }
    }

    /// An empty map.
    pub fn new() -> (m: Self)
        ensures
            m@ == Map::<Seq<char>, Seq<char>>::empty(),
            m.pairs() == Seq::<(Seq<char>, Seq<char>)>::empty(),
    {
        let m = StrMap { table: Table::new() };
        assert(m.pairs() =~= Seq::<(Seq<char>, Seq<char>)>::empty());
        assert(m@ =~= Map::<Seq<char>, Seq<char>>::empty());
        m
    }

    /// The number of entries.
    pub fn len(&self) -> (n: usize)
        ensures
            n == self.pairs().len(),
            n == self@.dom().len(),
    {
        proof {
            use_type_invariant(self);
            lemma_pairs_map_len(self.pairs());
        }
        self.table.len()
    }

    /// The key of entry `i`.
    pub fn key_at(&self, i: usize) -> (k: &Vec<char>)
        requires
            i < self.pairs().len(),
        ensures
            k@ == self.pairs()[i as int].0,
    {
        self.table.key_at(i)
    }

    /// The value of entry `i`.
    pub fn value_at(&self, i: usize) -> (v: &String)
        requires
            i < self.pairs().len(),
        ensures
            v@ == self.pairs()[i as int].1,
    {
        self.table.value_at(i)
    }

    /// The value stored under the key with characters `k`.
    pub fn get_chars(&self, k: &Vec<char>) -> (r: Option<&String>)
        ensures
            r matches Some(v) ==> self@.contains_key(k@) && v@ == self@[k@],
            r is None ==> !self@.contains_key(k@),
    {
        proof {
            use_type_invariant(self);
        }
        let mut i: usize = 0;
        while i < self.table.len()
            invariant
                i <= self.pairs().len(),
                self.pairs().len() == self.table.pairs().len(),
                keys_distinct(self.pairs()),
                forall|j: int| 0 <= j < i ==> #[trigger] self.pairs()[j].0 != k@,
            decreases self.pairs().len() - i,
        {
            if chars_eq(self.table.key_at(i), k) {
                proof {
                    lemma_pairs_map_at(self.pairs(), i as int);
                }
                return Some(self.table.value_at(i));
            }
            i = i + 1;
        }
        None
    }

    /// The value stored under `key`.
    pub fn get(&self, key: &str) -> (r: Option<&String>)
        ensures
            r matches Some(v) ==> self@.contains_key(key@) && v@ == self@[key@],
            r is None ==> !self@.contains_key(key@),
    {
        let k = to_chars(key);
        self.get_chars(&k)
    }

    /// Whether `key` has a value.
    pub fn contains_key(&self, key: &str) -> (r: bool)
        ensures
            r == self@.contains_key(key@),
    {
        self.get(key).is_some()
    }

    /// Stores `value` under the key with characters `k`: a present key keeps
    /// its place and takes the new value, a new key goes last.
    pub fn insert_chars(&mut self, k: Vec<char>, value: String)
        ensures
            final(self)@ == old(self)@.insert(k@, value@),
            final(self).pairs() == upsert(old(self).pairs(), k@, value@),
    {
        proof {
            use_type_invariant(&*self);
            use_type_invariant(&self.table);
            self.lemma_has_key(k@);
        }
        let ghost p = self.pairs();
        let ghost tp = self.table.pairs();
        let ghost kv = k@;
        let ghost vv = value@;
        let ghost vs = value;
        let mut table = Table::new();
        std::mem::swap(&mut table, &mut self.table);
        table.insert(k, value);
        proof {
            let q = table.pairs().map_values(|e: (Seq<char>, String)| (e.0, e.1@));
            if has_key(tp, kv) {
                let i = choose|i: int| 0 <= i < tp.len() && #[trigger] tp[i].0 == kv;
                lemma_upsert_at(tp, i, vs);
                assert(table.pairs() == tp.update(i, (kv, vs)));
                assert(q.len() == p.len());
                assert forall|j: int| 0 <= j < q.len() implies q[j] == p.update(i, (kv, vv))[j] by {
                    if j != i {
                        assert(q[j] == (tp[j].0, tp[j].1@));
                    }
                }
                assert(q =~= p.update(i, (kv, vv)));
                assert(p[i].0 == kv);
                lemma_upsert_at(p, i, vv);
                lemma_pairs_map_update(p, i, vv);
            } else {
                assert(q =~= p.push((kv, vv)));
                lemma_pairs_map_push(p, kv, vv);
            }
        }
        self.table = table;
    }

    /// Stores `value` under `key`.
    pub fn insert(&mut self, key: &str, value: &str)
        ensures
            final(self)@ == old(self)@.insert(key@, value@),
    {
        let k = to_chars(key);
        self.insert_chars(k, value.to_owned());
    }
}

} // verus!
