//! A map from peer addresses to values.
use vstd::prelude::*;

use crate::addr::SocketAddr;

verus! {

/// A map keyed by peer address. No address occurs twice.
pub struct PeerMap<V> {
    entries: Vec<(SocketAddr, V)>,
}

/// The map that a sequence of entries stands for.
pub open spec fn entries_map<V>(entries: Seq<(SocketAddr, V)>) -> Map<SocketAddr, V>
    decreases entries.len(),
{
    if entries.len() == 0 {
        Map::empty()
    } else {
        entries_map(entries.drop_last()).insert(entries.last().0, entries.last().1)
    }
}

/// No address occurs twice among the entries.
pub open spec fn distinct<V>(entries: Seq<(SocketAddr, V)>) -> bool {
    forall|i: int, j: int|
        0 <= i < j < entries.len() ==> (#[trigger] entries[i]).0 != (#[trigger] entries[j]).0
}

proof fn lemma_entries_lookup<V>(entries: Seq<(SocketAddr, V)>, i: int)
    requires
        distinct(entries),
        0 <= i < entries.len(),
    ensures
        entries_map(entries).contains_key(entries[i].0),
        entries_map(entries)[entries[i].0] == entries[i].1,
    decreases entries.len(),
{
    if i < entries.len() - 1 {
        assert(entries.drop_last()[i] == entries[i]);
        assert(distinct(entries.drop_last())) by {
            assert forall|a: int, b: int| 0 <= a < b < entries.drop_last().len() implies (
            #[trigger] entries.drop_last()[a]).0 != (#[trigger] entries.drop_last()[b]).0 by {
                assert(entries[a].0 != entries[b].0);
            }
        }
        lemma_entries_lookup(entries.drop_last(), i);
        assert(entries[i].0 != entries[entries.len() - 1].0);
    }
}

proof fn lemma_entries_domain<V>(entries: Seq<(SocketAddr, V)>, addr: SocketAddr)
    ensures
        entries_map(entries).contains_key(addr) <==> exists|i: int|
            0 <= i < entries.len() && (#[trigger] entries[i]).0 == addr,
    decreases entries.len(),
{
    if entries.len() > 0 {
        let init = entries.drop_last();
        lemma_entries_domain(init, addr);
        if entries_map(init).contains_key(addr) {
            let i = choose|i: int| 0 <= i < init.len() && (#[trigger] init[i]).0 == addr;
            assert(entries[i].0 == addr);
        }
        if exists|i: int| 0 <= i < entries.len() && (#[trigger] entries[i]).0 == addr {
            let i = choose|i: int| 0 <= i < entries.len() && (#[trigger] entries[i]).0 == addr;
            if i < init.len() {
                assert(init[i].0 == addr);
            } else {
                assert(entries.last().0 == addr);
            }
        }
        if entries.last().0 == addr {
            assert(entries[entries.len() - 1].0 == addr);
        }
    }
}

/// Two sequences of distinct entries that hold the same entries stand for the same map.
proof fn lemma_entries_determine_map<V>(entries: Seq<(SocketAddr, V)>, map: Map<SocketAddr, V>)
    requires
        distinct(entries),
        forall|i: int|
            0 <= i < entries.len() ==> map.contains_key((#[trigger] entries[i]).0)
                && map[entries[i].0] == entries[i].1,
        forall|addr: SocketAddr| #[trigger]
            map.contains_key(addr) ==> exists|i: int|
                0 <= i < entries.len() && (#[trigger] entries[i]).0 == addr,
    ensures
        entries_map(entries) == map,
{
    assert forall|addr: SocketAddr| entries_map(entries).contains_key(addr) == map.contains_key(
        addr,
    ) by {
        lemma_entries_domain(entries, addr);
    }
    assert forall|addr: SocketAddr| #[trigger]
        entries_map(entries).contains_key(addr) implies entries_map(entries)[addr]
        == map[addr] by {
        lemma_entries_domain(entries, addr);
        let i = choose|i: int| 0 <= i < entries.len() && (#[trigger] entries[i]).0 == addr;
        lemma_entries_lookup(entries, i);
    }
    assert(entries_map(entries) =~= map);
}

/// Replacing the value of one entry replaces the value kept for its address.
proof fn lemma_entries_replace<V>(entries: Seq<(SocketAddr, V)>, i: int, value: V)
    requires
        distinct(entries),
        0 <= i < entries.len(),
    ensures
        distinct(entries.update(i, (entries[i].0, value))),
        entries_map(entries.update(i, (entries[i].0, value))) == entries_map(entries).insert(
            entries[i].0,
            value,
        ),
{
    let updated = entries.update(i, (entries[i].0, value));
    let map = entries_map(entries).insert(entries[i].0, value);
    assert forall|a: int, b: int| 0 <= a < b < updated.len() implies (#[trigger] updated[a]).0 != (
    #[trigger] updated[b]).0 by {
        assert(entries[a].0 != entries[b].0);
    }
    assert forall|j: int| 0 <= j < updated.len() implies map.contains_key((#[trigger] updated[j]).0)
        && map[updated[j].0] == updated[j].1 by {
        lemma_entries_lookup(entries, j);
        if j < i {
            assert(entries[j].0 != entries[i].0);
        } else if i < j {
            assert(entries[i].0 != entries[j].0);
        }
    }
    assert forall|addr: SocketAddr| #[trigger] map.contains_key(addr) implies exists|j: int|
        0 <= j < updated.len() && (#[trigger] updated[j]).0 == addr by {
        lemma_entries_domain(entries, addr);
        if addr == entries[i].0 {
            assert(updated[i].0 == addr);
        } else {
            let j = choose|j: int| 0 <= j < entries.len() && (#[trigger] entries[j]).0 == addr;
            assert(updated[j].0 == addr);
        }
    }
    lemma_entries_determine_map(updated, map);
}

/// An entry for a new address at the end adds that address to the map.
proof fn lemma_entries_push<V>(entries: Seq<(SocketAddr, V)>, addr: SocketAddr, value: V)
    requires
        distinct(entries),
        forall|j: int| 0 <= j < entries.len() ==> (#[trigger] entries[j]).0 != addr,
    ensures
        distinct(entries.push((addr, value))),
        entries_map(entries.push((addr, value))) == entries_map(entries).insert(addr, value),
{
    let pushed = entries.push((addr, value));
    assert(pushed.drop_last() =~= entries);
    assert forall|a: int, b: int| 0 <= a < b < pushed.len() implies (#[trigger] pushed[a]).0 != (
    #[trigger] pushed[b]).0 by {
        assert(pushed[a] == entries[a]);
        if b < entries.len() {
            assert(pushed[b] == entries[b]);
        }
    }
}

/// Moving the last entry into the place of another one takes that one out of the map.
proof fn lemma_entries_swap_remove<V>(
    entries: Seq<(SocketAddr, V)>,
    i: int,
    rest: Seq<(SocketAddr, V)>,
)
    requires
        distinct(entries),
        0 <= i < entries.len(),
        rest == entries.update(i, entries.last()).drop_last(),
    ensures
        distinct(rest),
        entries_map(rest) == entries_map(entries).remove(entries[i].0),
{
    let last = entries.len() - 1;
    let map = entries_map(entries).remove(entries[i].0);
    assert forall|a: int, b: int| 0 <= a < b < rest.len() implies (#[trigger] rest[a]).0 != (
    #[trigger] rest[b]).0 by {
        assert(entries[a].0 != entries[b].0);
        assert(entries[a].0 != entries[last].0);
        assert(entries[b].0 != entries[last].0);
    }
    assert forall|j: int| 0 <= j < rest.len() implies map.contains_key((#[trigger] rest[j]).0)
        && map[rest[j].0] == rest[j].1 by {
        let k = if j == i {
            last
        } else {
            j
        };
        lemma_entries_lookup(entries, k);
        if k < i {
            assert(entries[k].0 != entries[i].0);
        } else {
            assert(entries[i].0 != entries[k].0);
        }
    }
    assert forall|addr: SocketAddr| #[trigger] map.contains_key(addr) implies exists|j: int|
        0 <= j < rest.len() && (#[trigger] rest[j]).0 == addr by {
        lemma_entries_domain(entries, addr);
        let k = choose|k: int| 0 <= k < entries.len() && (#[trigger] entries[k]).0 == addr;
        if k == last {
            assert(rest[i].0 == addr);
        } else {
            assert(rest[k].0 == addr);
        }
    }
    lemma_entries_determine_map(rest, map);
}

impl<V> View for PeerMap<V> {
    type V = Map<SocketAddr, V>;

    closed spec fn view(&self) -> Map<SocketAddr, V> {
        entries_map(self.entries@)
    }
}

impl<V> PeerMap<V> {
    /// No address occurs twice.
    pub closed spec fn wf(&self) -> bool {
        distinct(self.entries@)
    }

    /// An empty map.
    pub fn new() -> (map: Self)
        ensures
            map.wf(),
            map@ == Map::<SocketAddr, V>::empty(),
    {
        PeerMap { entries: Vec::new() }
    }

    /// The position of the entry for `addr`.
    fn find(&self, addr: &SocketAddr) -> (found: Option<usize>)
        requires
            self.wf(),
        ensures
            match found {
                Some(i) => {
                    &&& i < self.entries@.len()
                    &&& self.entries@[i as int].0 == *addr
                    &&& self@.contains_key(*addr)
                    &&& self@[*addr] == self.entries@[i as int].1
                },
                None => {
                    &&& !self@.contains_key(*addr)
                    &&& forall|j: int|
                        0 <= j < self.entries@.len() ==> (#[trigger] self.entries@[j]).0 != *addr
                },
            },
    {
        let mut i: usize = 0;
        while i < self.entries.len()
            invariant
                self.wf(),
                i <= self.entries@.len(),
                forall|j: int| 0 <= j < i ==> (#[trigger] self.entries@[j]).0 != *addr,
            decreases self.entries@.len() - i,
        {
            if self.entries[i].0 == *addr {
                proof {
                    lemma_entries_lookup(self.entries@, i as int);
                }
                return Some(i);
            }
            i += 1;
        }
        proof {
            lemma_entries_domain(self.entries@, *addr);
        }
        None
    }

    /// Whether there is an entry for `addr`.
    pub fn contains_key(&self, addr: &SocketAddr) -> (result: bool)
        requires
            self.wf(),
        ensures
            result == self@.contains_key(*addr),
    {
        self.find(addr).is_some()
    }

    /// The value kept for `addr`.
    pub fn get(&self, addr: &SocketAddr) -> (value: Option<&V>)
        requires
            self.wf(),
        ensures
            match value {
                Some(v) => self@.contains_key(*addr) && *v == self@[*addr],
                None => !self@.contains_key(*addr),
            },
    {
        match self.find(addr) {
            Some(i) => Some(&self.entries[i].1),
            None => None,
        }
    }

    /// The value kept for `addr`, to be changed in place.
    pub fn get_mut(&mut self, addr: &SocketAddr) -> (value: Option<&mut V>)
        requires
            old(self).wf(),
        ensures
            final(self).wf(),
            match value {
                Some(v) => {
                    &&& old(self)@.contains_key(*addr)
                    &&& *v == old(self)@[*addr]
                    &&& final(self)@ == old(self)@.insert(*addr, *final(v))
                },
                None => !old(self)@.contains_key(*addr) && final(self)@ == old(self)@,
            },
    {
        match self.find(addr) {
            Some(i) => {
                proof {
                    let entries = self.entries@;
                    assert forall|v: V|
                        distinct(#[trigger] entries.update(i as int, (*addr, v))) && entries_map(
                            entries.update(i as int, (*addr, v)),
                        ) == entries_map(entries).insert(*addr, v) by {
                        lemma_entries_replace(entries, i as int, v);
                    }
                }
                Some(&mut self.entries[i].1)
            },
            None => None,
        }
    }

    /// Keeps `value` for `addr`, in place of what was kept for it before.
    pub fn insert(&mut self, addr: SocketAddr, value: V)
        requires
            old(self).wf(),
        ensures
            final(self).wf(),
            final(self)@ == old(self)@.insert(addr, value),
    {
        match self.find(&addr) {
            Some(i) => {
                proof {
                    lemma_entries_replace(self.entries@, i as int, value);
                }
                self.entries.set(i, (addr, value));
            },
            None => {
                proof {
                    lemma_entries_push(self.entries@, addr, value);
                }
                self.entries.push((addr, value));
            },
        }
    }

    /// Drops what is kept for `addr` and says whether there was anything.
    pub fn remove(&mut self, addr: &SocketAddr) -> (removed: bool)
        requires
            old(self).wf(),
        ensures
            final(self).wf(),
            final(self)@ == old(self)@.remove(*addr),
            removed == old(self)@.contains_key(*addr),
    {
        match self.find(addr) {
            Some(i) => {
                let ghost before = self.entries@;
                self.entries.swap_remove(i);
                proof {
                    lemma_entries_swap_remove(before, i as int, self.entries@);
                }
                true
            },
            None => {
                assert(self@.remove(*addr) =~= self@);
                false
            },
        }
    }
}

} // verus!
