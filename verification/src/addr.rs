//! Addresses of the organization, of its modules and of other parties, and
//! ordered sets of them.

use crate::laws::law_page_length;
use crate::ordered_map::{is_page, text_of, texts, OrderedMap};
use vstd::prelude::*;

verus! {

/// An address, as the host reports it. The library compares addresses and
/// orders them by their bytes; whether one is well formed is the host's matter.
#[derive(Debug, PartialEq, Eq, Hash)]
pub struct Addr {
    text: String,
}

impl View for Addr {
    type V = Seq<char>;

    closed spec fn view(&self) -> Seq<char> {
        self.text@
    }
}

impl Clone for Addr {
    fn clone(&self) -> (copy: Self)
        ensures
            copy == *self,
    {
        Addr { text: self.text.clone() }
    }
}

impl Addr {
    /// The address with this text, taken as it is.
    pub fn unchecked(text: &str) -> (addr: Addr)
        ensures
            addr@ == text@,
    {
        Addr { text: text.to_owned() }
    }

    /// The address with this text, taken as it is and without a copy.
    pub fn from_string(text: String) -> (addr: Addr)
        ensures
            addr@ == text@,
    {
        Addr { text }
    }

    /// The text of the address.
    pub fn as_str(&self) -> (text: &str)
        ensures
            text@ == self@,
    {
        self.text.as_str()
    }

    /// The text of the address, owned.
    pub fn into_string(self) -> (text: String)
        ensures
            text@ == self@,
    {
        self.text
    }

    /// Whether the two addresses are the same.
    pub fn same(&self, other: &Addr) -> (same: bool)
        ensures
            same == (self@ == other@),
    {
        self.text == other.text
    }
}

/// The views of a vector of addresses, one for one.
pub open spec fn addresses(v: Seq<Addr>) -> Seq<Seq<char>> {
    Seq::new(v.len(), |i: int| v[i]@)
}

/// The view of an optional address.
pub open spec fn address_of(o: Option<Addr>) -> Option<Seq<char>> {
    match o {
        Some(a) => Some(a@),
        None => None,
    }
}

/// The addresses that a vector of texts names.
pub open spec fn named(v: Seq<String>) -> Set<Seq<char>> {
    Set::new(|a: Seq<char>| exists|i: int| 0 <= i < v.len() && (#[trigger] v[i])@ == a)
}

/// A finite set of addresses, kept in byte order.
pub struct AddrSet {
    members: OrderedMap<()>,
}

impl View for AddrSet {
    type V = Set<Seq<char>>;

    closed spec fn view(&self) -> Set<Seq<char>> {
        self.members@.dom()
    }
}

impl Clone for AddrSet {
    fn clone(&self) -> (copy: Self)
        ensures
            copy@ == self@,
    {
        AddrSet { members: self.members.clone() }
    }
}

impl AddrSet {
    /// The empty set.
    pub fn new() -> (set: Self)
        ensures
            set@ == Set::<Seq<char>>::empty(),
    {
        let set = AddrSet { members: OrderedMap::new() };
        assert(set@ =~= Set::<Seq<char>>::empty());
        set
    }

    /// The set of the addresses in `addrs`.
    pub fn from_addresses(addrs: Vec<Addr>) -> (set: Self)
        ensures
            set@ == addresses(addrs@).to_set(),
            set@.finite(),
    {
        proof {
            vstd::seq_lib::seq_to_set_is_finite(addresses(addrs@));
        }
        let mut set = AddrSet::new();
        let ghost all = addrs@;
        for addr in it: addrs.into_iter()
            invariant
                it.seq() == all,
                set@ == addresses(all.take(it.index() as int)).to_set(),
        {
            proof {
                let done = addresses(all.take(it.index() as int));
                let more = addresses(all.take(it.index() + 1));
                assert(more =~= done.push(addr@));
                done.lemma_push_to_set_commute(addr@);
            }
            set.insert(addr);
        }
        assert(all.take(all.len() as int) =~= all);
        set
    }

    /// The addresses of the set, in ascending byte order.
    pub fn to_vec(&self) -> (all: Vec<Addr>)
        ensures
            is_page(addresses(all@), self@, None, false, None, false),
            addresses(all@).to_set() == self@,
    {
        let all = self.page(None, false, None, false);
        proof {
            law_page_length(addresses(all@), self@, false, None, false);
        }
        all
    }

    /// The number of addresses in the set.
    pub fn len(&self) -> (n: usize)
        ensures
            self@.finite(),
            n == self@.len(),
    {
        self.members.len()
    }

    /// Whether the set holds no address.
    pub fn is_empty(&self) -> (empty: bool)
        ensures
            empty == (self@ == Set::<Seq<char>>::empty()),
    {
        self.members.is_empty()
    }

    /// Whether `addr` is in the set.
    pub fn contains(&self, addr: &str) -> (found: bool)
        ensures
            found == self@.contains(addr@),
    {
        self.members.contains_key(addr)
    }

    /// Puts `addr` into the set; tells whether it was new.
    pub fn insert(&mut self, addr: Addr) -> (fresh: bool)
        ensures
            final(self)@ == old(self)@.insert(addr@),
            fresh == !old(self)@.contains(addr@),
    {
        let previous = self.members.insert(addr.into_string(), ());
        assert(self@ =~= old(self)@.insert(addr@));
        previous.is_none()
    }

    /// Takes `addr` out of the set; tells whether it was there.
    pub fn remove(&mut self, addr: &str) -> (present: bool)
        ensures
            final(self)@ == old(self)@.remove(addr@),
            present == old(self)@.contains(addr@),
    {
        let removed = self.members.remove(addr);
        assert(self@ =~= old(self)@.remove(addr@));
        removed.is_some()
    }

    /// Takes every address that `addrs` names out of the set.
    pub fn remove_all(&mut self, addrs: &Vec<String>)
        ensures
            final(self)@ == old(self)@.difference(named(addrs@)),
    {
        let mut next: usize = 0;
        while next < addrs.len()
            invariant
                next <= addrs@.len(),
                self@ == old(self)@.difference(named(addrs@.take(next as int))),
            decreases addrs@.len() - next,
        {
            let ghost before = self@;
            self.remove(addrs[next].as_str());
            proof {
                let done = addrs@.take(next as int);
                let more = addrs@.take(next + 1);
                assert forall|a: Seq<char>| named(more).contains(a) <==> (named(done).contains(a)
                    || a == addrs@[next as int]@) by {
                    if named(more).contains(a) {
                        let i = choose|i: int| 0 <= i < more.len() && (#[trigger] more[i])@ == a;
                        if i < next {
                            assert(done[i]@ == a);
                        }
                    }
                    if named(done).contains(a) {
                        let i = choose|i: int| 0 <= i < done.len() && (#[trigger] done[i])@ == a;
                        assert(more[i]@ == a);
                    }
                    if a == addrs@[next as int]@ {
                        assert(more[next as int]@ == a);
                    }
                }
                assert(self@ =~= old(self)@.difference(named(more)));
            }
            next = next + 1;
        }
        proof {
            assert(addrs@.take(addrs@.len() as int) =~= addrs@);
        }
    }

    /// Lists addresses in ascending or descending byte order, from `start`,
    /// where it is given: with the start itself, where `inclusive` says so,
    /// else from behind it. The listing holds at most `limit` addresses,
    /// where a limit is given.
    pub fn page(
        &self,
        start: Option<&str>,
        inclusive: bool,
        limit: Option<u64>,
        descending: bool,
    ) -> (page: Vec<Addr>)
        ensures
            self@.finite(),
            is_page(addresses(page@), self@, text_of(start), inclusive, limit, descending),
    {
        let keys = self.members.page(start, inclusive, limit, descending);
        let mut page: Vec<Addr> = Vec::new();
        let mut next: usize = 0;
        while next < keys.len()
            invariant
                next <= keys@.len(),
                page@.len() == next,
                forall|i: int| 0 <= i < next ==> (#[trigger] page@[i])@ == keys@[i]@,
            decreases keys@.len() - next,
        {
            page.push(Addr::unchecked(keys[next].as_str()));
            next = next + 1;
        }
        proof {
            assert(addresses(page@) =~= texts(keys@));
        }
        page
    }
}

} // verus!
