//! A map from text keys to values that keeps its keys in order, with point
//! lookups and paged listings of the keys in either direction.

use crate::order::{
    lemma_str_lt_asymmetric, lemma_str_lt_irreflexive, lemma_str_lt_transitive, rank_str, str_lt,
    Rank,
};
use vstd::prelude::*;

verus! {

/// `a` comes strictly before `b` in a listing of the given direction.
pub open spec fn precedes(a: Seq<char>, b: Seq<char>, descending: bool) -> bool {
    if descending {
        str_lt(b, a)
    } else {
        str_lt(a, b)
    }
}

/// A listing that starts at `start` gets to `key`: the key comes behind the
/// start, or it is the start and the start itself is listed.
pub open spec fn reaches(start: Seq<char>, inclusive: bool, key: Seq<char>, descending: bool) -> bool {
    (inclusive && start == key) || precedes(start, key, descending)
}

/// `key` is one of `keys`, and the listing gets to it from its start, where
/// it has one.
pub open spec fn eligible(
    keys: Set<Seq<char>>,
    start: Option<Seq<char>>,
    inclusive: bool,
    descending: bool,
    key: Seq<char>,
) -> bool {
    &&& keys.contains(key)
    &&& start matches Some(cursor) ==> reaches(cursor, inclusive, key, descending)
}

/// `page` is the listing of `keys` in the given direction that starts at
/// `start`, with the start itself where `inclusive` says so and behind it
/// otherwise, and stops at the limit: it holds eligible keys only, in order,
/// at most `limit` of them, and leaves an eligible key out only where the page
/// is full and the key comes behind every key of the page.
pub open spec fn is_page(
    page: Seq<Seq<char>>,
    keys: Set<Seq<char>>,
    start: Option<Seq<char>>,
    inclusive: bool,
    limit: Option<u64>,
    descending: bool,
) -> bool {
    &&& forall|i: int|
        0 <= i < page.len() ==> eligible(keys, start, inclusive, descending, #[trigger] page[i])
    &&& forall|i: int, j: int|
        0 <= i < j < page.len() ==> precedes(#[trigger] page[i], #[trigger] page[j], descending)
    &&& limit matches Some(n) ==> page.len() <= n
    &&& forall|key: Seq<char>|
        #[trigger] eligible(keys, start, inclusive, descending, key) && !page.contains(key) ==> {
            &&& limit matches Some(n) && n == page.len()
            &&& forall|i: int| 0 <= i < page.len() ==> precedes(#[trigger] page[i], key, descending)
        }
}

/// The keys stand in strictly ascending order.
pub open spec fn ascending(keys: Seq<Seq<char>>) -> bool {
    forall|i: int, j: int| 0 <= i < j < keys.len() ==> str_lt(#[trigger] keys[i], #[trigger] keys[j])
}

/// The views of a vector of texts, one for one.
pub open spec fn texts(v: Seq<String>) -> Seq<Seq<char>> {
    Seq::new(v.len(), |i: int| v[i]@)
}

/// The view of an optional text.
pub open spec fn text_of(o: Option<&str>) -> Option<Seq<char>> {
    match o {
        Some(s) => Some(s@),
        None => None,
    }
}

struct Entry<V> {
    key: String,
    value: V,
}

/// A map from text keys to values, held in ascending order of the keys.
pub struct OrderedMap<V> {
    entries: Vec<Entry<V>>,
}

spec fn keys_of<V>(entries: Seq<Entry<V>>) -> Seq<Seq<char>> {
    Seq::new(entries.len(), |i: int| entries[i].key@)
}

spec fn map_of<V>(entries: Seq<Entry<V>>) -> Map<Seq<char>, V> {
    Map::new(
        |k: Seq<char>| keys_of(entries).contains(k),
        |k: Seq<char>| entries[keys_of(entries).index_of(k)].value,
    )
}

proof fn lemma_ascending_distinct(keys: Seq<Seq<char>>, i: int, j: int)
    requires
        ascending(keys),
        0 <= i < keys.len(),
        0 <= j < keys.len(),
        keys[i] == keys[j],
    ensures
        i == j,
{
    lemma_str_lt_irreflexive(keys[i]);
}

proof fn lemma_map_of_at<V>(entries: Seq<Entry<V>>, i: int)
    requires
        ascending(keys_of(entries)),
        0 <= i < entries.len(),
    ensures
        map_of(entries).dom().contains(entries[i].key@),
        map_of(entries)[entries[i].key@] == entries[i].value,
{
    let keys = keys_of(entries);
    assert(keys[i] == entries[i].key@);
    let j = keys.index_of(keys[i]);
    lemma_ascending_distinct(keys, i, j);
}

proof fn lemma_map_of_dom<V>(entries: Seq<Entry<V>>, k: Seq<char>)
    ensures
        map_of(entries).dom().contains(k) <==> exists|i: int|
            0 <= i < entries.len() && (#[trigger] entries[i]).key@ == k,
{
    let keys = keys_of(entries);
    if keys.contains(k) {
        let i = choose|i: int| 0 <= i < keys.len() && keys[i] == k;
        assert(entries[i].key@ == k);
    }
    if exists|i: int| 0 <= i < entries.len() && (#[trigger] entries[i]).key@ == k {
        let i = choose|i: int| 0 <= i < entries.len() && (#[trigger] entries[i]).key@ == k;
        assert(keys[i] == k);
    }
}

proof fn lemma_dom_finite<V>(entries: Seq<Entry<V>>)
    requires
        ascending(keys_of(entries)),
    ensures
        map_of(entries).dom().finite(),
        map_of(entries).dom().len() == entries.len(),
{
    let keys = keys_of(entries);
    assert(map_of(entries).dom() =~= keys.to_set());
    assert(keys.no_duplicates()) by {
        assert forall|i: int, j: int| 0 <= i < keys.len() && 0 <= j < keys.len() && i != j implies keys[i]
            != keys[j] by {
            if keys[i] == keys[j] {
                lemma_ascending_distinct(keys, i, j);
            }
        }
    }
    keys.unique_seq_to_set();
    vstd::seq_lib::seq_to_set_is_finite(keys);
}

impl<V> View for OrderedMap<V> {
    type V = Map<Seq<char>, V>;

    closed spec fn view(&self) -> Map<Seq<char>, V> {
        map_of(self.entries@)
    }
}

impl<V> OrderedMap<V> {
    #[verifier::type_invariant]
    spec fn ordered(&self) -> bool {
        ascending(keys_of(self.entries@))
    }

    /// An empty map.
    pub fn new() -> (map: Self)
        ensures
            map@ == Map::<Seq<char>, V>::empty(),
    {
        let map = OrderedMap { entries: Vec::new() };
        assert(map@ =~= Map::<Seq<char>, V>::empty());
        map
    }

    /// The number of keys.
    pub fn len(&self) -> (n: usize)
        ensures
            self@.dom().finite(),
            n == self@.dom().len(),
    {
        proof {
            use_type_invariant(self);
            lemma_dom_finite(self.entries@);
        }
        self.entries.len()
    }

    /// Whether the map holds no key.
    pub fn is_empty(&self) -> (empty: bool)
        ensures
            empty == (self@.dom() == Set::<Seq<char>>::empty()),
    {
        proof {
            use_type_invariant(self);
            lemma_dom_finite(self.entries@);
            if self.entries@.len() > 0 {
                lemma_map_of_at(self.entries@, 0);
            } else {
                assert(self@.dom() =~= Set::<Seq<char>>::empty());
            }
        }
        self.entries.len() == 0
    }

    /// Finds where `key` stands among the keys: the number of keys below it,
    /// and whether the key at that position is `key` itself.
    fn locate(&self, key: &str) -> (place: (usize, bool))
        ensures
            place.0 <= self.entries@.len(),
            forall|j: int| 0 <= j < place.0 ==> str_lt(#[trigger] keys_of(self.entries@)[j], key@),
            place.1 ==> place.0 < self.entries@.len() && keys_of(self.entries@)[place.0 as int]
                == key@,
            forall|j: int|
                place.0 + (if place.1 { 1int } else { 0int }) <= j < self.entries@.len() ==> str_lt(
                    key@,
                    #[trigger] keys_of(self.entries@)[j],
                ),
    {
        proof {
            use_type_invariant(self);
        }
        let ghost keys = keys_of(self.entries@);
        let mut low: usize = 0;
        let mut high: usize = self.entries.len();
        while low < high
            invariant
                keys == keys_of(self.entries@),
                ascending(keys),
                low <= high <= keys.len(),
                forall|j: int| 0 <= j < low ==> str_lt(#[trigger] keys[j], key@),
                forall|j: int| high <= j < keys.len() ==> str_lt(key@, #[trigger] keys[j]),
            decreases high - low,
        {
            let mid = low + (high - low) / 2;
            let rank = rank_str(self.entries[mid].key.as_str(), key);
            assert(keys[mid as int] == self.entries@[mid as int].key@);
            match rank {
                Rank::Before => {
                    proof {
                        assert forall|j: int| 0 <= j < mid + 1 implies str_lt(
                            #[trigger] keys[j],
                            key@,
                        ) by {
                            if j < mid {
                                lemma_str_lt_transitive(keys[j], keys[mid as int], key@);
                            }
                        }
                    }
                    low = mid + 1;
                },
                Rank::Same => {
                    proof {
                        assert forall|j: int| mid + 1 <= j < keys.len() implies str_lt(
                            key@,
                            #[trigger] keys[j],
                        ) by {
                            assert(str_lt(keys[mid as int], keys[j]));
                        }
                        assert forall|j: int| 0 <= j < mid implies str_lt(
                            #[trigger] keys[j],
                            key@,
                        ) by {
                            assert(str_lt(keys[j], keys[mid as int]));
                        }
                    }
                    return (mid, true);
                },
                Rank::After => {
                    proof {
                        assert forall|j: int| mid <= j < keys.len() implies str_lt(
                            key@,
                            #[trigger] keys[j],
                        ) by {
                            if mid < j {
                                lemma_str_lt_transitive(key@, keys[mid as int], keys[j]);
                            }
                        }
                    }
                    high = mid;
                },
            }
        }
        (low, false)
    }

    /// Whether `key` is in the map.
    pub fn contains_key(&self, key: &str) -> (found: bool)
        ensures
            found == self@.dom().contains(key@),
    {
        let (at, found) = self.locate(key);
        proof {
            use_type_invariant(self);
            self.lemma_located(key@, at as int, found);
        }
        found
    }

    /// What `locate` found decides whether the key is in the map, and where.
    proof fn lemma_located(&self, key: Seq<char>, at: int, found: bool)
        requires
            self.ordered(),
            0 <= at <= self.entries@.len(),
            forall|j: int| 0 <= j < at ==> str_lt(#[trigger] keys_of(self.entries@)[j], key),
            found ==> at < self.entries@.len() && keys_of(self.entries@)[at] == key,
            forall|j: int|
                at + (if found { 1int } else { 0int }) <= j < self.entries@.len() ==> str_lt(
                    key,
                    #[trigger] keys_of(self.entries@)[j],
                ),
        ensures
            found == self@.dom().contains(key),
            found ==> self@[key] == self.entries@[at].value,
    {
        let keys = keys_of(self.entries@);
        lemma_map_of_dom(self.entries@, key);
        if found {
            assert(self.entries@[at].key@ == key);
            lemma_map_of_at(self.entries@, at);
        } else {
            if self@.dom().contains(key) {
                let i = choose|i: int|
                    0 <= i < self.entries@.len() && (#[trigger] self.entries@[i]).key@ == key;
                assert(keys[i] == key);
                lemma_str_lt_irreflexive(key);
            }
        }
    }

    /// The value stored under `key`, if there is one.
    pub fn get(&self, key: &str) -> (value: Option<&V>)
        ensures
            match value {
                Some(v) => self@.dom().contains(key@) && *v == self@[key@],
                None => !self@.dom().contains(key@),
            },
    {
        let (at, found) = self.locate(key);
        proof {
            use_type_invariant(self);
            self.lemma_located(key@, at as int, found);
        }
        if found {
            Some(&self.entries[at].value)
        } else {
            None
        }
    }

    /// Stores `value` under `key` and hands back the value it replaces, if any.
    pub fn insert(&mut self, key: String, value: V) -> (previous: Option<V>)
        ensures
            final(self)@ == old(self)@.insert(key@, value),
            previous == (if old(self)@.dom().contains(key@) {
                Some(old(self)@[key@])
            } else {
                None
            }),
    {
        let (at, found) = self.locate(key.as_str());
        proof {
            use_type_invariant(&*self);
            self.lemma_located(key@, at as int, found);
        }
        let ghost before = self.entries@;
        let mut entries: Vec<Entry<V>> = Vec::new();
        std::mem::swap(&mut entries, &mut self.entries);
        let previous = if found {
            let replaced = entries.remove(at);
            Some(replaced.value)
        } else {
            None
        };
        let ghost key_view = key@;
        entries.insert(at, Entry { key, value });
        proof {
            let after = entries@;
            let old_keys = keys_of(before);
            let new_keys = keys_of(after);
            assert(after[at as int].key@ == key_view);
            assert forall|i: int, j: int| 0 <= i < j < new_keys.len() implies str_lt(
                #[trigger] new_keys[i],
                #[trigger] new_keys[j],
            ) by {
                let shift = if found { 0int } else { 1int };
                let oi = if i < at { i } else if i == at { at as int } else { i - shift };
                let oj = if j < at { j } else if j == at { at as int } else { j - shift };
                if i != at {
                    assert(new_keys[i] == old_keys[oi]);
                }
                if j != at {
                    assert(new_keys[j] == old_keys[oj]);
                }
                if i != at && j != at {
                    assert(str_lt(old_keys[oi], old_keys[oj]));
                }
            }
            assert(map_of(after) =~= map_of(before).insert(key_view, value)) by {
                assert forall|k: Seq<char>| map_of(after).dom().contains(k) <==> (k == key_view
                    || map_of(before).dom().contains(k)) by {
                    lemma_map_of_dom(after, k);
                    lemma_map_of_dom(before, k);
                    if map_of(after).dom().contains(k) && k != key_view {
                        let i = choose|i: int|
                            0 <= i < after.len() && (#[trigger] after[i]).key@ == k;
                        let shift = if found { 0int } else { 1int };
                        let oi = if i < at { i } else { i - shift };
                        assert(before[oi].key@ == k);
                    }
                    if map_of(before).dom().contains(k) && k != key_view {
                        let i = choose|i: int|
                            0 <= i < before.len() && (#[trigger] before[i]).key@ == k;
                        let shift = if found { 0int } else { 1int };
                        let ni = if i < at { i } else { i + shift };
                        assert(after[ni].key@ == k);
                    }
                    if k == key_view {
                        assert(after[at as int].key@ == k);
                    }
                }
                assert forall|k: Seq<char>| #[trigger]
                    map_of(after).dom().contains(k) implies map_of(after)[k] == map_of(
                    before,
                ).insert(key_view, value)[k] by {
                    lemma_map_of_dom(after, k);
                    let i = choose|i: int| 0 <= i < after.len() && (#[trigger] after[i]).key@ == k;
                    lemma_map_of_at(after, i);
                    if k == key_view {
                        lemma_ascending_distinct(new_keys, i, at as int);
                    } else {
                        let shift = if found { 0int } else { 1int };
                        let oi = if i < at { i } else { i - shift };
                        assert(before[oi] == after[i]);
                        lemma_map_of_at(before, oi);
                    }
                }
            }
        }
        self.entries = entries;
        previous
    }

    /// Takes `key` out of the map and hands back its value, if it was there.
    pub fn remove(&mut self, key: &str) -> (removed: Option<V>)
        ensures
            final(self)@ == old(self)@.remove(key@),
            removed == (if old(self)@.dom().contains(key@) {
                Some(old(self)@[key@])
            } else {
                None
            }),
    {
        let (at, found) = self.locate(key);
        proof {
            use_type_invariant(&*self);
            self.lemma_located(key@, at as int, found);
        }
        if !found {
            assert(self@ =~= self@.remove(key@));
            return None;
        }
        let ghost before = self.entries@;
        let mut entries: Vec<Entry<V>> = Vec::new();
        std::mem::swap(&mut entries, &mut self.entries);
        let taken = entries.remove(at);
        proof {
            let after = entries@;
            let old_keys = keys_of(before);
            let new_keys = keys_of(after);
            assert forall|i: int, j: int| 0 <= i < j < new_keys.len() implies str_lt(
                #[trigger] new_keys[i],
                #[trigger] new_keys[j],
            ) by {
                let oi = if i < at { i } else { i + 1 };
                let oj = if j < at { j } else { j + 1 };
                assert(new_keys[i] == old_keys[oi]);
                assert(new_keys[j] == old_keys[oj]);
            }
            assert(map_of(after) =~= map_of(before).remove(key@)) by {
                assert forall|k: Seq<char>| map_of(after).dom().contains(k) <==> (k != key@
                    && map_of(before).dom().contains(k)) by {
                    lemma_map_of_dom(after, k);
                    lemma_map_of_dom(before, k);
                    if map_of(after).dom().contains(k) {
                        let i = choose|i: int|
                            0 <= i < after.len() && (#[trigger] after[i]).key@ == k;
                        let oi = if i < at { i } else { i + 1 };
                        assert(before[oi].key@ == k);
                        if k == key@ {
                            lemma_ascending_distinct(old_keys, oi, at as int);
                        }
                    }
                    if map_of(before).dom().contains(k) && k != key@ {
                        let i = choose|i: int|
                            0 <= i < before.len() && (#[trigger] before[i]).key@ == k;
                        let ni = if i < at { i } else { i - 1 };
                        assert(after[ni].key@ == k);
                    }
                }
                assert forall|k: Seq<char>| #[trigger]
                    map_of(after).dom().contains(k) implies map_of(after)[k] == map_of(
                    before,
                )[k] by {
                    lemma_map_of_dom(after, k);
                    let i = choose|i: int| 0 <= i < after.len() && (#[trigger] after[i]).key@ == k;
                    lemma_map_of_at(after, i);
                    let oi = if i < at { i } else { i + 1 };
                    assert(before[oi] == after[i]);
                    lemma_map_of_at(before, oi);
                }
            }
        }
        self.entries = entries;
        Some(taken.value)
    }

    /// Lists keys in ascending or descending order, from `start`, where it
    /// is given: with the start itself, where `inclusive` says so, else from
    /// behind it. The listing holds at most `limit` keys, where a limit is
    /// given.
    pub fn page(
        &self,
        start: Option<&str>,
        inclusive: bool,
        limit: Option<u64>,
        descending: bool,
    ) -> (page: Vec<String>)
        ensures
            self@.dom().finite(),
            is_page(texts(page@), self@.dom(), text_of(start), inclusive, limit, descending),
    {
        proof {
            use_type_invariant(self);
            lemma_dom_finite(self.entries@);
        }
        let ghost keys = keys_of(self.entries@);
        let count = self.entries.len();
        let mut page: Vec<String> = Vec::new();
        let edge = match start {
            Some(cursor) => {
                let (at, found) = self.locate(cursor);
                proof {
                    assert forall|j: int| 0 <= j < keys.len() implies (reaches(
                        cursor@,
                        inclusive,
                        #[trigger] keys[j],
                        descending,
                    ) <==> (if descending {
                        j < at + (if found && inclusive { 1int } else { 0int })
                    } else {
                        at + (if found && !inclusive { 1int } else { 0int }) <= j
                    })) by {
                        lemma_str_lt_irreflexive(keys[j]);
                        lemma_str_lt_asymmetric(keys[j], cursor@);
                        if found && keys[j] == cursor@ {
                            lemma_ascending_distinct(keys, j, at as int);
                        }
                    }
                }
                if found && (inclusive == descending) {
                    at + 1
                } else {
                    at
                }
            },
            None => if descending {
                count
            } else {
                0
            },
        };
        if descending {
            let mut next = edge;
            while next > 0 && below_limit(page.len(), limit)
                invariant
                    keys == keys_of(self.entries@),
                    next <= edge <= keys.len(),
                    page@.len() == edge - next,
                    limit matches Some(n) ==> page@.len() <= n,
                    forall|t: int| 0 <= t < page@.len() ==> (#[trigger] page@[t])@ == keys[edge - 1 - t],
                decreases next,
            {
                next = next - 1;
                page.push(self.entries[next].key.clone());
            }
        } else {
            let mut next = edge;
            while next < count && below_limit(page.len(), limit)
                invariant
                    keys == keys_of(self.entries@),
                    count == keys.len(),
                    edge <= next <= count,
                    page@.len() == next - edge,
                    limit matches Some(n) ==> page@.len() <= n,
                    forall|t: int| 0 <= t < page@.len() ==> (#[trigger] page@[t])@ == keys[edge + t],
                decreases count - next,
            {
                page.push(self.entries[next].key.clone());
                next = next + 1;
            }
        }
        proof {
            let listed = texts(page@);
            assert forall|t: int| 0 <= t < listed.len() implies #[trigger] listed[t] == keys[if descending {
                edge - 1 - t
            } else {
                edge + t
            }] by {
                assert(listed[t] == page@[t]@);
            }
            self.lemma_run_is_page(listed, text_of(start), inclusive, limit, descending, edge as int);
        }
        page
    }

    /// A run of consecutive keys that starts at the first eligible key, and
    /// stops early only at the limit, is the page that was asked for. Going
    /// down, the run starts just below position `edge`; going up, at `edge`.
    proof fn lemma_run_is_page(
        &self,
        listed: Seq<Seq<char>>,
        start: Option<Seq<char>>,
        inclusive: bool,
        limit: Option<u64>,
        descending: bool,
        edge: int,
    )
        requires
            self.ordered(),
            0 <= edge <= self.entries@.len(),
            descending ==> listed.len() <= edge,
            !descending ==> listed.len() <= self.entries@.len() - edge,
            forall|t: int|
                0 <= t < listed.len() ==> #[trigger] listed[t] == keys_of(self.entries@)[if descending {
                    edge - 1 - t
                } else {
                    edge + t
                }],
            limit matches Some(n) ==> listed.len() <= n,
            (if descending {
                listed.len() < edge
            } else {
                listed.len() < self.entries@.len() - edge
            }) ==> (limit matches Some(n) && n == listed.len()),
            start is None ==> edge == (if descending {
                self.entries@.len() as int
            } else {
                0int
            }),
            forall|j: int|
                0 <= j < self.entries@.len() && start is Some ==> (reaches(
                    start->0,
                    inclusive,
                    #[trigger] keys_of(self.entries@)[j],
                    descending,
                ) <==> (if descending {
                    j < edge
                } else {
                    edge <= j
                })),
        ensures
            is_page(listed, self@.dom(), start, inclusive, limit, descending),
    {
        let keys = keys_of(self.entries@);
        let dom = self@.dom();
        let at = |t: int| if descending { edge - 1 - t } else { edge + t };
        assert forall|i: int| 0 <= i < listed.len() implies eligible(
            dom,
            start,
            inclusive,
            descending,
            #[trigger] listed[i],
        ) by {
            lemma_map_of_at(self.entries@, at(i));
            assert(keys[at(i)] == self.entries@[at(i)].key@);
        }
        assert forall|i: int, j: int| 0 <= i < j < listed.len() implies precedes(
            #[trigger] listed[i],
            #[trigger] listed[j],
            descending,
        ) by {
            if descending {
                assert(str_lt(keys[at(j)], keys[at(i)]));
            } else {
                assert(str_lt(keys[at(i)], keys[at(j)]));
            }
        }
        assert forall|key: Seq<char>| #[trigger]
            eligible(dom, start, inclusive, descending, key) && !listed.contains(key) implies {
            &&& limit matches Some(n) && n == listed.len()
            &&& forall|i: int| 0 <= i < listed.len() ==> precedes(#[trigger] listed[i], key, descending)
        } by {
            lemma_map_of_dom(self.entries@, key);
            let j = choose|j: int|
                0 <= j < self.entries@.len() && (#[trigger] self.entries@[j]).key@ == key;
            assert(keys[j] == key);
            let t = if descending { edge - 1 - j } else { j - edge };
            if 0 <= t < listed.len() {
                assert(listed[t] == key);
            }
            assert forall|i: int| 0 <= i < listed.len() implies precedes(
                #[trigger] listed[i],
                key,
                descending,
            ) by {
                if descending {
                    assert(str_lt(keys[j], keys[at(i)]));
                } else {
                    assert(str_lt(keys[at(i)], keys[j]));
                }
            }
        }
    }
}

impl<V: Clone> Clone for OrderedMap<V> {
    /// A copy with the same keys, each value cloned.
    fn clone(&self) -> (copy: Self)
        ensures
            copy@.dom() == self@.dom(),
            forall|key: Seq<char>| #[trigger]
                copy@.dom().contains(key) ==> cloned::<V>(self@[key], copy@[key]),
    {
        proof {
            use_type_invariant(self);
        }
        let mut entries: Vec<Entry<V>> = Vec::new();
        let mut next: usize = 0;
        while next < self.entries.len()
            invariant
                next <= self.entries@.len(),
                entries@.len() == next,
                forall|i: int| 0 <= i < next ==> (#[trigger] entries@[i]).key@ == self.entries@[i].key@,
                forall|i: int|
                    0 <= i < next ==> cloned::<V>(self.entries@[i].value, (#[trigger] entries@[i]).value),
            decreases self.entries@.len() - next,
        {
            let entry = &self.entries[next];
            entries.push(Entry { key: entry.key.clone(), value: entry.value.clone() });
            next = next + 1;
        }
        proof {
            let old_keys = keys_of(self.entries@);
            let new_keys = keys_of(entries@);
            assert(new_keys =~= old_keys);
            assert(map_of(entries@).dom() =~= map_of(self.entries@).dom());
            assert forall|key: Seq<char>| #[trigger]
                map_of(entries@).dom().contains(key) implies cloned::<V>(
                map_of(self.entries@)[key],
                map_of(entries@)[key],
            ) by {
                lemma_map_of_dom(entries@, key);
                let i = choose|i: int| 0 <= i < entries@.len() && (#[trigger] entries@[i]).key@ == key;
                lemma_map_of_at(entries@, i);
                lemma_map_of_at(self.entries@, i);
            }
        }
        OrderedMap { entries }
    }
}

/// Whether a page that holds `count` keys may take one more.
fn below_limit(count: usize, limit: Option<u64>) -> (more: bool)
    ensures
        more == (limit matches Some(n) ==> count < n),
{
    match limit {
        Some(n) => (count as u64) < n,
        None => true,
    }
}

} // verus!
