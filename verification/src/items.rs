//! The item registry: addresses stored under text keys.

use crate::addr::{address_of, Addr};
use crate::order::lemma_str_lt_irreflexive;
use crate::ordered_map::{ascending, is_page, text_of, texts, OrderedMap};
use vstd::prelude::*;

verus! {

/// The keys of a run of items, one for one.
pub open spec fn keys_of(entries: Seq<(String, Addr)>) -> Seq<Seq<char>> {
    Seq::new(entries.len(), |i: int| entries[i].0@)
}

/// The registry that a run of items builds up when each is stored in turn.
pub open spec fn stored(entries: Seq<(String, Addr)>) -> Map<Seq<char>, Seq<char>>
    decreases entries.len(),
{
    if entries.len() == 0 {
        Map::empty()
    } else {
        stored(entries.drop_last()).insert(entries.last().0@, entries.last().1@)
    }
}

/// A run of items with ascending keys builds up the registry that holds
/// just these items.
proof fn lemma_stored_ascending(entries: Seq<(String, Addr)>)
    requires
        ascending(keys_of(entries)),
    ensures
        forall|key: Seq<char>|
            stored(entries).contains_key(key) <==> exists|i: int|
                0 <= i < entries.len() && (#[trigger] entries[i]).0@ == key,
        forall|i: int|
            0 <= i < entries.len() ==> stored(entries)[(#[trigger] entries[i]).0@] == entries[i].1@,
    decreases entries.len(),
{
    if entries.len() > 0 {
        let front = entries.drop_last();
        let last = entries.last();
        assert(ascending(keys_of(front))) by {
            assert forall|i: int, j: int| 0 <= i < j < front.len() implies crate::order::str_lt(
                #[trigger] keys_of(front)[i],
                #[trigger] keys_of(front)[j],
            ) by {
                assert(keys_of(front)[i] == keys_of(entries)[i]);
                assert(keys_of(front)[j] == keys_of(entries)[j]);
            }
        }
        lemma_stored_ascending(front);
        assert forall|key: Seq<char>|
            stored(entries).contains_key(key) <==> exists|i: int|
                0 <= i < entries.len() && (#[trigger] entries[i]).0@ == key by {
            if stored(front).contains_key(key) {
                let i = choose|i: int| 0 <= i < front.len() && (#[trigger] front[i]).0@ == key;
                assert(entries[i].0@ == key);
            }
            if exists|i: int| 0 <= i < entries.len() && (#[trigger] entries[i]).0@ == key {
                let i = choose|i: int| 0 <= i < entries.len() && (#[trigger] entries[i]).0@ == key;
                if i < front.len() {
                    assert(front[i].0@ == key);
                }
            }
            if key == last.0@ {
                assert(entries[entries.len() - 1].0@ == key);
            }
        }
        assert forall|i: int| 0 <= i < entries.len() implies stored(entries)[(
        #[trigger] entries[i]).0@] == entries[i].1@ by {
            if i < front.len() {
                assert(front[i] == entries[i]);
                assert(keys_of(entries)[i] == entries[i].0@);
                assert(keys_of(entries)[entries.len() - 1] == last.0@);
                lemma_str_lt_irreflexive(last.0@);
            }
        }
    }
}

/// A map from keys to addresses. Any address may stand under any number of
/// keys.
pub struct ItemStore {
    items: OrderedMap<Addr>,
}

impl View for ItemStore {
    type V = Map<Seq<char>, Seq<char>>;

    closed spec fn view(&self) -> Map<Seq<char>, Seq<char>> {
        Map::new(|key: Seq<char>| self.items@.dom().contains(key), |key: Seq<char>| self.items@[key]@)
    }
}

impl ItemStore {
    /// A registry without items.
    pub fn new() -> (store: Self)
        ensures
            store@ == Map::<Seq<char>, Seq<char>>::empty(),
    {
        let store = ItemStore { items: OrderedMap::new() };
        assert(store@ =~= Map::<Seq<char>, Seq<char>>::empty());
        store
    }

    /// The registry that holds the items of `entries`, stored in turn: of
    /// two items under one key the later stays.
    pub fn from_entries(entries: Vec<(String, Addr)>) -> (store: Self)
        ensures
            store@ == stored(entries@),
    {
        let mut store = ItemStore::new();
        let ghost all = entries@;
        for entry in it: entries.into_iter()
            invariant
                it.seq() == all,
                store@ == stored(all.take(it.index() as int)),
        {
            let (key, addr) = entry;
            assert(all.take(it.index() + 1).drop_last() =~= all.take(it.index() as int));
            store.set(key, addr);
        }
        assert(all.take(all.len() as int) =~= all);
        store
    }

    /// The items of the registry, in ascending order of their keys. Stored
    /// in turn they build up the registry again.
    pub fn entries(&self) -> (entries: Vec<(String, Addr)>)
        ensures
            ascending(keys_of(entries@)),
            stored(entries@) == self@,
    {
        let keys = self.items.page(None, false, None, false);
        let mut entries: Vec<(String, Addr)> = Vec::new();
        let mut next: usize = 0;
        while next < keys.len()
            invariant
                next <= keys@.len(),
                entries@.len() == next,
                is_page(texts(keys@), self.items@.dom(), None, false, None, false),
                forall|i: int| 0 <= i < next ==> (#[trigger] entries@[i]).0@ == keys@[i]@,
                forall|i: int| 0 <= i < next ==> (#[trigger] entries@[i]).1 == self.items@[keys@[i]@],
            decreases keys@.len() - next,
        {
            let key = &keys[next];
            assert(texts(keys@)[next as int] == key@);
            assert(self.items@.dom().contains(key@));
            match self.items.get(key.as_str()) {
                Some(addr) => {
                    entries.push((key.clone(), addr.clone()));
                },
                None => {},
            }
            next = next + 1;
        }
        proof {
            assert(keys_of(entries@) =~= texts(keys@));
            lemma_stored_ascending(entries@);
            let built = stored(entries@);
            assert forall|key: Seq<char>| #[trigger] self@.dom().contains(key) implies built.dom().contains(
                key,
            ) by {
                assert(crate::ordered_map::eligible(self.items@.dom(), None, false, false, key));
                assert(texts(keys@).contains(key));
                let i = choose|i: int| 0 <= i < keys@.len() && texts(keys@)[i] == key;
                assert(entries@[i].0@ == key);
            }
            assert forall|key: Seq<char>| #[trigger] built.dom().contains(key) implies self@.dom().contains(
                key,
            ) && built[key] == self@[key] by {
                let i = choose|i: int| 0 <= i < entries@.len() && (#[trigger] entries@[i]).0@ == key;
                assert(texts(keys@)[i] == key);
                assert(crate::ordered_map::eligible(
                    self.items@.dom(),
                    None,
                    false,
                    false,
                    texts(keys@)[i],
                ));
                assert(built[entries@[i].0@] == entries@[i].1@);
                assert(entries@[i].1 == self.items@[keys@[i]@]);
                assert(self@[key] == self.items@[key]@);
            }
            assert(built.dom() =~= self@.dom());
            assert(built =~= self@);
        }
        entries
    }

    /// The number of keys.
    pub fn len(&self) -> (n: usize)
        ensures
            self@.dom().finite(),
            n == self@.dom().len(),
    {
        assert(self@.dom() =~= self.items@.dom());
        self.items.len()
    }

    /// Stores `addr` under `key`, in place of what stood there.
    pub fn set(&mut self, key: String, addr: Addr)
        ensures
            final(self)@ == old(self)@.insert(key@, addr@),
    {
        let _ = self.items.insert(key, addr);
        assert(self@ =~= old(self)@.insert(key@, addr@));
    }

    /// Removes `key`. Where the key is absent nothing changes.
    pub fn remove(&mut self, key: &str)
        ensures
            final(self)@ == old(self)@.remove(key@),
            !old(self)@.dom().contains(key@) ==> final(self)@ == old(self)@,
    {
        let _ = self.items.remove(key);
        assert(self@ =~= old(self)@.remove(key@));
        assert(!old(self)@.dom().contains(key@) ==> old(self)@.remove(key@) =~= old(self)@);
    }

    /// The address stored under `key`, if there is one.
    pub fn get(&self, key: &str) -> (item: Option<Addr>)
        ensures
            address_of(item) == (if self@.dom().contains(key@) {
                Some(self@[key@])
            } else {
                None
            }),
    {
        match self.items.get(key) {
            Some(addr) => Some(addr.clone()),
            None => None,
        }
    }

    /// Lists keys in ascending byte order: from `start_at` on, where it is
    /// given, with `start_at` itself if it is a key, and at most `limit` of
    /// them, where a limit is given.
    pub fn list(&self, start_at: Option<&str>, limit: Option<u64>) -> (keys: Vec<String>)
        ensures
            self@.dom().finite(),
            is_page(texts(keys@), self@.dom(), text_of(start_at), true, limit, false),
    {
        assert(self@.dom() =~= self.items@.dom());
        self.items.page(start_at, true, limit, false)
    }
}

} // verus!
