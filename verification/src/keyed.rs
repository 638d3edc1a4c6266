//! Maps and sets that keep their keys in order.

use vstd::prelude::*;
use vstd::std_specs::iter::IteratorSpec;
use vstd::string::*;

verus! {

/// How one key stands to another.
#[derive(Clone, Copy, Debug, PartialEq, Eq, Structural)]
pub enum KeyOrder {
    Before,
    Same,
    After,
}

/// A type that can be the key of a [`SortedMap`]: its views are in a strict
/// total order, and a key knows how it stands to another.
pub trait MapKey: View + Sized {
    /// The strict order of the keys.
    spec fn before(a: Self::V, b: Self::V) -> bool;

    /// The order is irreflexive, transitive and total.
    proof fn order_laws(a: Self::V, b: Self::V, c: Self::V)
        ensures
            !Self::before(a, a),
            Self::before(a, b) && Self::before(b, c) ==> Self::before(a, c),
            a == b || Self::before(a, b) || Self::before(b, a),
    ;

    /// How this key stands to another.
    fn stands_to(&self, other: &Self) -> (r: KeyOrder)
        ensures
            r == KeyOrder::Before ==> Self::before(self@, other@),
            r == KeyOrder::Same ==> self@ == other@,
            r == KeyOrder::After ==> Self::before(other@, self@),
    ;

    /// A copy of this key.
    fn copy_key(&self) -> (r: Self)
        ensures
            r@ == self@,
    ;
}

impl MapKey for u64 {
    open spec fn before(a: u64, b: u64) -> bool {
        a < b
    }

    proof fn order_laws(a: u64, b: u64, c: u64) {
    }

    fn stands_to(&self, other: &Self) -> (r: KeyOrder) {
        if *self < *other {
            KeyOrder::Before
        } else if *self == *other {
            KeyOrder::Same
        } else {
            KeyOrder::After
        }
    }

    fn copy_key(&self) -> (r: Self) {
        *self
    }
}

/// The first text comes strictly before the second: character by character, a
/// smaller code point first, and a proper prefix before what it begins. For
/// texts in UTF-8 this is also the order of their bytes.
pub open spec fn text_before(a: Seq<char>, b: Seq<char>) -> bool
    decreases a.len(),
{
    if b.len() == 0 {
        false
    } else if a.len() == 0 {
        true
    } else {
        a[0] < b[0] || (a[0] == b[0] && text_before(a.drop_first(), b.drop_first()))
    }
}

/// The order of texts is a strict total order.
pub proof fn lemma_text_before_is_total_order(a: Seq<char>, b: Seq<char>, c: Seq<char>)
    ensures
        !text_before(a, a),
        text_before(a, b) && text_before(b, c) ==> text_before(a, c),
        a == b || text_before(a, b) || text_before(b, a),
    decreases a.len(),
{
    if a.len() > 0 {
        lemma_text_before_is_total_order(a.drop_first(), a.drop_first(), a.drop_first());
        if b.len() > 0 {
            lemma_text_before_is_total_order(a.drop_first(), b.drop_first(), b.drop_first());
            if a[0] == b[0] && a.drop_first() == b.drop_first() {
                assert(a =~= seq![a[0]] + a.drop_first());
                assert(b =~= seq![b[0]] + b.drop_first());
            }
            if c.len() > 0 {
                lemma_text_before_is_total_order(a.drop_first(), b.drop_first(), c.drop_first());
            }
        }
    } else if b.len() == 0 {
        assert(a =~= b);
    }
}

impl MapKey for String {
    open spec fn before(a: Seq<char>, b: Seq<char>) -> bool {
        text_before(a, b)
    }

    proof fn order_laws(a: Seq<char>, b: Seq<char>, c: Seq<char>) {
        lemma_text_before_is_total_order(a, b, c);
    }

    fn stands_to(&self, other: &Self) -> (r: KeyOrder) {
        let mut x = self.as_str().chars();
        let mut y = other.as_str().chars();
        let ghost mut done: int = 0;
        loop
            invariant
                0 <= done <= self@.len(),
                x.remaining() == self@.skip(done),
                text_before(x.remaining(), y.remaining()) ==> text_before(self@, other@),
                text_before(y.remaining(), x.remaining()) ==> text_before(other@, self@),
                x.remaining() == y.remaining() ==> self@ == other@,
                x.obeys_prophetic_iter_laws(),
                y.obeys_prophetic_iter_laws(),
            decreases self@.len() - done,
        {
            let ghost xs = x.remaining();
            let ghost ys = y.remaining();
            let c = x.next();
            let d = y.next();
            match (c, d) {
                (Some(c), Some(d)) => {
                    if c < d {
                        return KeyOrder::Before;
                    }
                    if d < c {
                        return KeyOrder::After;
                    }
                    proof {
                        assert(xs =~= seq![c] + xs.drop_first());
                        assert(ys =~= seq![c] + ys.drop_first());
                        assert(self@.skip(done).drop_first() == self@.skip(done + 1));
                        done = done + 1;
                    }
                },
                (None, None) => {
                    proof {
                        assert(xs =~= ys);
                    }
                    return KeyOrder::Same;
                },
                (None, Some(_)) => {
                    return KeyOrder::Before;
                },
                (Some(_), None) => {
                    return KeyOrder::After;
                },
            }
        }
    }

    fn copy_key(&self) -> (r: Self) {
        self.clone()
    }
}

impl MapKey for (String, String) {
    open spec fn before(a: (Seq<char>, Seq<char>), b: (Seq<char>, Seq<char>)) -> bool {
        text_before(a.0, b.0) || (a.0 == b.0 && text_before(a.1, b.1))
    }

    proof fn order_laws(
        a: (Seq<char>, Seq<char>),
        b: (Seq<char>, Seq<char>),
        c: (Seq<char>, Seq<char>),
    ) {
        lemma_text_before_is_total_order(a.0, b.0, c.0);
        lemma_text_before_is_total_order(a.1, b.1, c.1);
    }

    fn stands_to(&self, other: &Self) -> (r: KeyOrder) {
        match self.0.stands_to(&other.0) {
            KeyOrder::Before => KeyOrder::Before,
            KeyOrder::After => KeyOrder::After,
            KeyOrder::Same => self.1.stands_to(&other.1),
        }
    }

    fn copy_key(&self) -> (r: Self) {
        (self.0.clone(), self.1.clone())
    }
}

/// A map from keys to values, walked in the order of its keys.
#[derive(Debug)]
pub struct SortedMap<K: MapKey, V: View> {
    entries: Vec<(K, V)>,
}

impl<K: MapKey, V: View> View for SortedMap<K, V> {
    type V = Map<K::V, V::V>;

    closed spec fn view(&self) -> Map<K::V, V::V> {
        map_of(self.entries@)
    }
}

/// What a list of entries maps, the later ones winning.
spec fn map_of<K: MapKey, V: View>(entries: Seq<(K, V)>) -> Map<K::V, V::V>
    decreases entries.len(),
{
    if entries.len() == 0 {
        Map::empty()
    } else {
        map_of(entries.drop_last()).insert(entries.last().0@, entries.last().1@)
    }
}

/// The keys of a list of entries strictly ascend.
spec fn ascending<K: MapKey, V: View>(entries: Seq<(K, V)>) -> bool {
    forall|i: int, j: int|
        #![trigger entries[i], entries[j]]
        0 <= i < j < entries.len() ==> K::before(entries[i].0@, entries[j].0@)
}

/// A list holds the keys of a map, each once, in strictly ascending order.
pub open spec fn keys_in_order<K: MapKey, V: View>(
    keys: Seq<K::V>,
    map: Map<K::V, V::V>,
) -> bool {
    &&& map.dom().finite()
    &&& map.dom().len() == keys.len()
    &&& forall|i: int| 0 <= i < keys.len() ==> map.contains_key(#[trigger] keys[i])
    &&& forall|k: K::V| #[trigger]
        map.contains_key(k) ==> exists|i: int| 0 <= i < keys.len() && #[trigger] keys[i] == k
    &&& forall|i: int, j: int|
        0 <= i < j < keys.len() ==> K::before(#[trigger] keys[i], #[trigger] keys[j])
}

/// In an ascending list each entry is found under its key, and nothing else is.
proof fn lemma_map_of<K: MapKey, V: View>(entries: Seq<(K, V)>)
    requires
        ascending(entries),
    ensures
        forall|i: int|
            #![trigger entries[i]]
            0 <= i < entries.len() ==> map_of(entries).contains_key(entries[i].0@)
                && map_of(entries)[entries[i].0@] == entries[i].1@,
        forall|k: K::V| #[trigger]
            map_of(entries).contains_key(k) ==> exists|i: int|
                0 <= i < entries.len() && (#[trigger] entries[i]).0@ == k,
        map_of(entries).dom().finite(),
        map_of(entries).dom().len() == entries.len(),
    decreases entries.len(),
{
    if entries.len() > 0 {
        let rest = entries.drop_last();
        let last = entries.last();
        lemma_map_of(rest);
        assert forall|i: int| #![trigger entries[i]] 0 <= i < rest.len() implies entries[i].0@
            != last.0@ by {
            K::order_laws(entries[i].0@, entries[i].0@, entries[i].0@);
            assert(K::before(entries[i].0@, entries[entries.len() - 1].0@));
        }
        assert(!map_of(rest).contains_key(last.0@)) by {
            if map_of(rest).contains_key(last.0@) {
                let i = choose|i: int| 0 <= i < rest.len() && (#[trigger] rest[i]).0@ == last.0@;
                assert(entries[i] == rest[i]);
            }
        }
        assert forall|i: int| #![trigger entries[i]] 0 <= i < entries.len() implies map_of(
            entries,
        ).contains_key(entries[i].0@) && map_of(entries)[entries[i].0@] == entries[i].1@ by {
            if i < rest.len() {
                assert(entries[i] == rest[i]);
            }
        }
        assert forall|k: K::V| #[trigger] map_of(entries).contains_key(k) implies exists|i: int|
            0 <= i < entries.len() && (#[trigger] entries[i]).0@ == k by {
            if k == last.0@ {
                assert(entries[entries.len() - 1].0@ == k);
            } else {
                let i = choose|i: int| 0 <= i < rest.len() && (#[trigger] rest[i]).0@ == k;
                assert(entries[i].0@ == k);
            }
        }
    }
}

/// Two ascending lists that map the same keys to the same values have one map.
proof fn lemma_inserted<K: MapKey, V: View>(
    old_entries: Seq<(K, V)>,
    new_entries: Seq<(K, V)>,
    at: int,
    key: K::V,
    value: V::V,
)
    requires
        ascending(old_entries),
        ascending(new_entries),
        0 <= at < new_entries.len(),
        new_entries[at].0@ == key,
        new_entries[at].1@ == value,
        forall|i: int|
            0 <= i < old_entries.len() && (#[trigger] old_entries[i]).0@ != key
                ==> new_entries.contains(old_entries[i]),
        forall|j: int|
            0 <= j < new_entries.len() && j != at ==> old_entries.contains(
                #[trigger] new_entries[j],
            ),
    ensures
        map_of(new_entries) == map_of(old_entries).insert(key, value),
{
    lemma_map_of(old_entries);
    lemma_map_of(new_entries);
    let a = map_of(new_entries);
    let b = map_of(old_entries).insert(key, value);
    assert forall|k: K::V| a.contains_key(k) <==> b.contains_key(k) by {
        if a.contains_key(k) {
            let j = choose|j: int| 0 <= j < new_entries.len() && (#[trigger] new_entries[j]).0@ == k;
            if j != at {
                let i = choose|i: int|
                    0 <= i < old_entries.len() && #[trigger] old_entries[i] == new_entries[j];
                assert(old_entries[i].0@ == k);
            }
        }
        if b.contains_key(k) && k != key {
            let i = choose|i: int| 0 <= i < old_entries.len() && (#[trigger] old_entries[i]).0@ == k;
            let j = choose|j: int|
                0 <= j < new_entries.len() && #[trigger] new_entries[j] == old_entries[i];
            assert(new_entries[j].0@ == k);
        }
        if k == key {
            assert(new_entries[at].0@ == k);
        }
    }
    assert forall|k: K::V| a.contains_key(k) implies a[k] == b[k] by {
        if k == key {
            assert(new_entries[at].0@ == k);
        } else {
            let j = choose|j: int| 0 <= j < new_entries.len() && (#[trigger] new_entries[j]).0@ == k;
            let i = choose|i: int|
                0 <= i < old_entries.len() && #[trigger] old_entries[i] == new_entries[j];
            assert(old_entries[i].0@ == k);
        }
    }
    assert(a =~= b);
}

impl<K: MapKey, V: View> SortedMap<K, V> {
    #[verifier::type_invariant]
    spec fn in_order(self) -> bool {
        ascending(self.entries@)
    }

    /// The keys, in order.
    pub closed spec fn keys(&self) -> Seq<K::V> {
        self.entries@.map_values(|e: (K, V)| e.0@)
    }

    /// An empty map.
    pub fn new() -> (r: Self)
        ensures
            r@ == Map::<K::V, V::V>::empty(),
    {
        SortedMap { entries: Vec::new() }
    }

    /// The number of entries.
    pub fn len(&self) -> (r: usize)
        ensures
            r == self@.dom().len(),
            r == self.keys().len(),
            keys_in_order::<K, V>(self.keys(), self@),
    {
        proof {
            use_type_invariant(self);
            lemma_map_of(self.entries@);
            assert forall|k: K::V| #[trigger] self@.contains_key(k) implies exists|i: int|
                0 <= i < self.keys().len() && #[trigger] self.keys()[i] == k by {
                let i = choose|i: int|
                    0 <= i < self.entries@.len() && (#[trigger] self.entries@[i]).0@ == k;
                assert(self.keys()[i] == k);
            }
        }
        self.entries.len()
    }

    /// The key at a place in the order.
    pub fn key_at(&self, i: usize) -> (r: &K)
        requires
            i < self.keys().len(),
        ensures
            r@ == self.keys()[i as int],
            self@.contains_key(r@),
    {
        proof {
            use_type_invariant(self);
            lemma_map_of(self.entries@);
        }
        &self.entries[i].0
    }

    /// The value of the key at a place in the order.
    pub fn value_at(&self, i: usize) -> (r: &V)
        requires
            i < self.keys().len(),
        ensures
            self@.contains_key(self.keys()[i as int]),
            r@ == self@[self.keys()[i as int]],
    {
        proof {
            use_type_invariant(self);
            lemma_map_of(self.entries@);
        }
        &self.entries[i].1
    }

    /// Where a key stands, or where it would have to be put.
    fn place(&self, key: &K) -> (r: (bool, usize))
        ensures
            r.1 <= self.entries@.len(),
            r.0 ==> r.1 < self.entries@.len() && self.entries@[r.1 as int].0@ == key@,
            forall|j: int|
                0 <= j < r.1 ==> K::before((#[trigger] self.entries@[j]).0@, key@),
            !r.0 ==> forall|j: int|
                r.1 <= j < self.entries@.len() ==> K::before(
                    key@,
                    (#[trigger] self.entries@[j]).0@,
                ),
    {
        proof {
            use_type_invariant(self);
        }
        let mut low: usize = 0;
        let mut high: usize = self.entries.len();
        while low < high
            invariant
                low <= high <= self.entries@.len(),
                ascending(self.entries@),
                forall|j: int| 0 <= j < low ==> K::before((#[trigger] self.entries@[j]).0@, key@),
                forall|j: int|
                    high <= j < self.entries@.len() ==> K::before(
                        key@,
                        (#[trigger] self.entries@[j]).0@,
                    ),
            decreases high - low,
        {
            let mid: usize = low + (high - low) / 2;
            let ghost m = self.entries@[mid as int].0@;
            match key.stands_to(&self.entries[mid].0) {
                KeyOrder::Same => {
                    return (true, mid);
                },
                KeyOrder::Before => {
                    proof {
                        assert forall|j: int| mid <= j < self.entries@.len() implies K::before(
                            key@,
                            (#[trigger] self.entries@[j]).0@,
                        ) by {
                            K::order_laws(key@, m, self.entries@[j].0@);
                        }
                    }
                    high = mid;
                },
                KeyOrder::After => {
                    proof {
                        assert forall|j: int| 0 <= j <= mid implies K::before(
                            (#[trigger] self.entries@[j]).0@,
                            key@,
                        ) by {
                            K::order_laws(self.entries@[j].0@, m, key@);
                        }
                    }
                    low = mid + 1;
                },
            }
        }
        (false, low)
    }

    /// A key that has no place in the entries is not in the map.
    proof fn lemma_absent(&self, key: K::V, at: int)
        requires
            ascending(self.entries@),
            0 <= at <= self.entries@.len(),
            forall|j: int| 0 <= j < at ==> K::before((#[trigger] self.entries@[j]).0@, key),
            forall|j: int|
                at <= j < self.entries@.len() ==> K::before(key, (#[trigger] self.entries@[j]).0@),
        ensures
            !self@.contains_key(key),
    {
        lemma_map_of(self.entries@);
        K::order_laws(key, key, key);
        if self@.contains_key(key) {
            let i = choose|i: int|
                0 <= i < self.entries@.len() && (#[trigger] self.entries@[i]).0@ == key;
            assert(false);
        }
    }

    /// The value of a key.
    pub fn get(&self, key: &K) -> (r: Option<&V>)
        ensures
            r is Some <==> self@.contains_key(key@),
            r matches Some(v) ==> v@ == self@[key@],
    {
        let (found, at) = self.place(key);
        if found {
            proof {
                use_type_invariant(self);
                lemma_map_of(self.entries@);
            }
            Some(&self.entries[at].1)
        } else {
            proof {
                use_type_invariant(self);
                self.lemma_absent(key@, at as int);
            }
            None
        }
    }

    /// Whether a key has a value.
    pub fn contains(&self, key: &K) -> (r: bool)
        ensures
            r == self@.contains_key(key@),
    {
        self.get(key).is_some()
    }

    /// Gives a key a value, in place of any that it had.
    pub fn insert(&mut self, key: K, value: V)
        ensures
            final(self)@ == old(self)@.insert(key@, value@),
    {
        let (found, at) = self.place(&key);
        proof {
            use_type_invariant(&*self);
        }
        let mut entries: Vec<(K, V)> = Vec::new();
        std::mem::swap(&mut entries, &mut self.entries);
        let ghost before = entries@;
        if found {
            entries.remove(at);
            proof {
                assert forall|j: int| at <= j < entries@.len() implies K::before(
                    key@,
                    (#[trigger] entries@[j]).0@,
                ) by {
                    assert(entries@[j] == before[j + 1]);
                    assert(K::before(before[at as int].0@, before[j + 1].0@));
                }
            }
        }
        let ghost between = entries@;
        let ghost kv = key@;
        let ghost vv = value@;
        entries.insert(at, (key, value));
        proof {
            let after = entries@;
            assert forall|i: int, j: int|
                #![trigger after[i], after[j]]
                0 <= i < j < after.len() implies K::before(after[i].0@, after[j].0@) by {
                if i < at {
                    assert(after[i] == between[i]);
                    assert(between[i] == before[i]);
                } else if i > at {
                    assert(after[i] == between[i - 1]);
                    assert(between[i - 1] == (if found {
                        before[i]
                    } else {
                        before[i - 1]
                    }));
                }
                if j < at {
                    assert(after[j] == between[j]);
                    assert(between[j] == before[j]);
                } else if j > at {
                    assert(after[j] == between[j - 1]);
                    assert(between[j - 1] == (if found {
                        before[j]
                    } else {
                        before[j - 1]
                    }));
                }
            }
            assert forall|i: int|
                0 <= i < before.len() && (#[trigger] before[i]).0@ != kv implies after.contains(
                before[i],
            ) by {
                if i < at {
                    assert(after[i] == before[i]);
                } else if found {
                    assert(i != at);
                    assert(after[i] == before[i]);
                } else {
                    assert(after[i + 1] == before[i]);
                }
            }
            assert forall|j: int| 0 <= j < after.len() && j != at implies before.contains(
                #[trigger] after[j],
            ) by {
                if j < at {
                    assert(before[j] == after[j]);
                } else if found {
                    assert(before[j] == after[j]);
                } else {
                    assert(before[j - 1] == after[j]);
                }
            }
            lemma_inserted(before, after, at as int, kv, vv);
        }
        self.entries = entries;
    }

    /// Takes a key out, with its value.
    pub fn remove(&mut self, key: &K) -> (r: Option<V>)
        ensures
            r is Some <==> old(self)@.contains_key(key@),
            r matches Some(v) ==> v@ == old(self)@[key@],
            final(self)@ == old(self)@.remove(key@),
    {
        let (found, at) = self.place(key);
        if !found {
            proof {
                use_type_invariant(&*self);
                self.lemma_absent(key@, at as int);
                assert(self@.remove(key@) =~= self@);
            }
            return None;
        }
        proof {
            use_type_invariant(&*self);
            lemma_map_of(self.entries@);
        }
        let ghost kv = key@;
        let mut entries: Vec<(K, V)> = Vec::new();
        std::mem::swap(&mut entries, &mut self.entries);
        let ghost before = entries@;
        let (_, value) = entries.remove(at);
        proof {
            let after = entries@;
            assert forall|i: int, j: int|
                #![trigger after[i], after[j]]
                0 <= i < j < after.len() implies K::before(after[i].0@, after[j].0@) by {
                assert(after[i] == (if i < at { before[i] } else { before[i + 1] }));
                assert(after[j] == (if j < at { before[j] } else { before[j + 1] }));
            }
            lemma_map_of(after);
            assert forall|j: int| 0 <= j < after.len() implies (#[trigger] after[j]).0@ != kv by {
                K::order_laws(kv, kv, kv);
                assert(after[j] == (if j < at { before[j] } else { before[j + 1] }));
                assert(before[at as int].0@ == kv);
            }
            // the list with the key put back maps what it did before
            assert forall|i: int|
                0 <= i < after.len() && (#[trigger] after[i]).0@ != kv implies before.contains(
                after[i],
            ) by {
                if i < at {
                    assert(before[i] == after[i]);
                } else {
                    assert(before[i + 1] == after[i]);
                }
            }
            assert forall|j: int| 0 <= j < before.len() && j != at implies after.contains(
                #[trigger] before[j],
            ) by {
                if j < at {
                    assert(after[j] == before[j]);
                } else {
                    assert(after[j - 1] == before[j]);
                }
            }
            lemma_inserted(after, before, at as int, kv, before[at as int].1@);
            assert(!map_of(after).contains_key(kv));
            assert(map_of(before).remove(kv) =~= map_of(after));
        }
        self.entries = entries;
        Some(value)
    }
}

/// A set that is walked in the order of its members.
#[derive(Debug)]
pub struct SortedSet<K: MapKey> {
    members: SortedMap<K, ()>,
}

impl<K: MapKey> View for SortedSet<K> {
    type V = Set<K::V>;

    closed spec fn view(&self) -> Set<K::V> {
        self.members@.dom()
    }
}

impl<K: MapKey> SortedSet<K> {
    /// The members, in order.
    pub closed spec fn items(&self) -> Seq<K::V> {
        self.members.keys()
    }

    /// An empty set.
    pub fn new() -> (r: Self)
        ensures
            r@ == Set::<K::V>::empty(),
    {
        let r = SortedSet { members: SortedMap::new() };
        proof {
            assert(r@ =~= Set::<K::V>::empty());
        }
        r
    }

    /// The number of members.
    pub fn len(&self) -> (r: usize)
        ensures
            r == self@.len(),
            r == self.items().len(),
            self@.finite(),
    {
        self.members.len()
    }

    /// The member at a place in the order.
    pub fn item_at(&self, i: usize) -> (r: &K)
        requires
            i < self.items().len(),
        ensures
            r@ == self.items()[i as int],
            self@.contains(r@),
    {
        self.members.key_at(i)
    }

    /// Whether a key is a member.
    pub fn contains(&self, key: &K) -> (r: bool)
        ensures
            r == self@.contains(key@),
    {
        self.members.contains(key)
    }

    /// Makes a key a member.
    pub fn insert(&mut self, key: K)
        ensures
            final(self)@ == old(self)@.insert(key@),
    {
        self.members.insert(key, ());
        proof {
            assert(self@ =~= old(self)@.insert(key@));
        }
    }

    /// Takes a key out, and says whether it was a member.
    pub fn remove(&mut self, key: &K) -> (r: bool)
        ensures
            r == old(self)@.contains(key@),
            final(self)@ == old(self)@.remove(key@),
    {
        let r = self.members.remove(key).is_some();
        proof {
            assert(self@ =~= old(self)@.remove(key@));
        }
        r
    }
}

/// Two texts are the same up to a place, and there the first ends or has the smaller
/// character.
pub open spec fn differ_at(a: Seq<char>, b: Seq<char>, i: int) -> bool {
    &&& 0 <= i <= a.len()
    &&& i < b.len()
    &&& forall|j: int| 0 <= j < i ==> a[j] == b[j]
    &&& i == a.len() || a[i] < b[i]
}

/// Texts are in the order of the first character in which they differ, and one that the
/// other begins with comes first.
pub proof fn law_texts_are_ordered_by_their_first_difference(a: Seq<char>, b: Seq<char>)
    ensures
        text_before(a, b) <==> exists|i: int| differ_at(a, b, i),
    decreases a.len(),
{
    if a.len() == 0 {
        if b.len() > 0 {
            assert(differ_at(a, b, 0));
        }
    } else if b.len() > 0 {
        let x = a.drop_first();
        let y = b.drop_first();
        law_texts_are_ordered_by_their_first_difference(x, y);
        if text_before(a, b) {
            if a[0] < b[0] {
                assert(differ_at(a, b, 0));
            } else {
                let i = choose|i: int| differ_at(x, y, i);
                assert forall|j: int| 0 <= j < i + 1 implies a[j] == b[j] by {
                    if j > 0 {
                        assert(x[j - 1] == y[j - 1]);
                    }
                }
                assert(i < x.len() ==> x[i] == a[i + 1] && y[i] == b[i + 1]);
                assert(differ_at(a, b, i + 1));
            }
        }
        if exists|i: int| differ_at(a, b, i) {
            let i = choose|i: int| differ_at(a, b, i);
            if i > 0 {
                assert(a[0] == b[0]);
                assert forall|j: int| 0 <= j < i - 1 implies x[j] == y[j] by {
                    assert(a[j + 1] == b[j + 1]);
                }
                assert(differ_at(x, y, i - 1));
            }
        }
    }
}

} // verus!
