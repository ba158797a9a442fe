use crate::addr::Addr;
use crate::assoc::{
    assoc_map, lemma_assoc_map_dom, lemma_assoc_map_index, lemma_assoc_map_remove, AssocMap, Key,
};
use crate::message::FileInstructions;
use vstd::prelude::*;

verus! {

/// The node's local store: a mapping from item name to binary content,
/// holding the items this node physically keeps.
pub struct Database {
    pub data: AssocMap<String, Vec<u8>>,
}

impl Database {
    pub open spec fn wf(&self) -> bool {
        self.data.wf()
    }

    pub fn new() -> (r: Database)
        ensures
            r.wf(),
            r.data@ == Map::<Seq<char>, Vec<u8>>::empty(),
            r.data.entries@.len() == 0,
    {
        Database { data: AssocMap::empty() }
    }

    pub fn get_data(&self) -> (r: &AssocMap<String, Vec<u8>>)
        ensures
            *r == self.data,
    {
        &self.data
    }
}

/// `m` with every binding whose value is `a` removed: the membership
/// table after the peer at address `a` is dropped.
pub open spec fn drop_addr(m: Map<Seq<char>, Addr>, a: Addr) -> Map<Seq<char>, Addr> {
    Map::new(|k: Seq<char>| m.dom().contains(k) && m[k] != a, |k: Seq<char>| m[k])
}

/// The addresses bound by a sequence of membership entries.
pub open spec fn entry_addrs(s: Seq<(String, Addr)>) -> Seq<Addr> {
    s.map_values(|e: (String, Addr)| e.1)
}

/// Whether some membership entry binds the address `a`.
pub open spec fn has_addr(s: Seq<(String, Addr)>, a: Addr) -> bool {
    exists|i: int| 0 <= i < s.len() && (#[trigger] s[i]).1 == a
}

/// Sorted by port, the deterministic order the failure monitor walks
/// peers in.
pub open spec fn sorted_by_port(s: Seq<Addr>) -> bool {
    forall|i: int, j: int| 0 <= i <= j < s.len() ==> (#[trigger] s[i]).port <= (#[trigger] s[j]).port
}

/// `v` inserted into the port-sorted `s` after every element whose port
/// does not exceed `v`'s: one step of the insertion sort.
pub open spec fn insert_by_port(s: Seq<Addr>, v: Addr) -> Seq<Addr>
    decreases s.len(),
{
    if s.len() == 0 {
        seq![v]
    } else if s.first().port <= v.port {
        seq![s.first()] + insert_by_port(s.drop_first(), v)
    } else {
        seq![v] + s
    }
}

/// The table's addresses in ascending port order, equal ports kept in
/// entry order: the exact sequence the monitor's sort yields.
pub open spec fn sorted_addrs(s: Seq<Addr>) -> Seq<Addr>
    decreases s.len(),
{
    if s.len() == 0 {
        Seq::empty()
    } else {
        insert_by_port(sorted_addrs(s.drop_last()), s.last())
    }
}

/// The position of the first occurrence of `a` in `s` (`s.len()` when `a`
/// is absent).
pub open spec fn first_index_of(s: Seq<Addr>, a: Addr) -> int
    decreases s.len(),
{
    if s.len() == 0 {
        0
    } else if s.first() == a {
        0
    } else {
        1 + first_index_of(s.drop_first(), a)
    }
}

/// Where the node stands in the sorted order: the first position of its
/// own address, or position zero when its address is not listed.
pub open spec fn own_position(s: Seq<Addr>, a: Addr) -> int {
    if s.contains(a) {
        first_index_of(s, a)
    } else {
        0
    }
}

/// The walk the failure monitor takes from position `own` in `s`: the
/// addresses at the up-to-three following positions, wrapped past the
/// end, cut short where even the wrapped position leaves the sequence.
pub open spec fn cyclic_successors(s: Seq<Addr>, own: int, step: int) -> Seq<Addr>
    decreases 4 - step,
{
    if step < 1 || step > 3 {
        Seq::empty()
    } else {
        let i = own + step;
        if i < s.len() {
            seq![s[i]] + cyclic_successors(s, own, step + 1)
        } else if i - s.len() < s.len() {
            seq![s[i - s.len()]] + cyclic_successors(s, own, step + 1)
        } else {
            Seq::empty()
        }
    }
}

/// Inserting at the boundary position that the scan finds — after the
/// elements whose port does not exceed the new one's — is the recursive
/// insertion.
pub proof fn lemma_insert_by_port_at(s: Seq<Addr>, v: Addr, p: int)
    requires
        0 <= p <= s.len(),
        forall|q: int| 0 <= q < p ==> (#[trigger] s[q]).port <= v.port,
        p < s.len() ==> s[p].port > v.port,
    ensures
        insert_by_port(s, v) == s.insert(p, v),
    decreases s.len(),
{
    if s.len() == 0 {
        assert(insert_by_port(s, v) =~= s.insert(0, v));
    } else if p == 0 {
        assert(s[0].port > v.port);
        assert(insert_by_port(s, v) =~= s.insert(0, v));
    } else {
        assert(s[0].port <= v.port);
        assert forall|q: int| 0 <= q < p - 1 implies (#[trigger] s.drop_first()[q]).port
            <= v.port by {
            assert(s.drop_first()[q] == s[q + 1]);
        }
        if p - 1 < s.drop_first().len() {
            assert(s.drop_first()[p - 1] == s[p]);
        }
        lemma_insert_by_port_at(s.drop_first(), v, p - 1);
        assert(seq![s.first()] + s.drop_first().insert(p - 1, v) =~= s.insert(p, v));
    }
}

/// The scan that stops at the first occurrence of `a` finds the position
/// `first_index_of` names.
pub proof fn lemma_first_index_of(s: Seq<Addr>, a: Addr, k: int)
    requires
        0 <= k < s.len(),
        s[k] == a,
        forall|q: int| 0 <= q < k ==> (#[trigger] s[q]) != a,
    ensures
        s.contains(a),
        first_index_of(s, a) == k,
    decreases k,
{
    if k == 0 {
        assert(s.first() == a);
    } else {
        assert(s[0] != a);
        assert(s.drop_first()[k - 1] == s[k]);
        assert forall|q: int| 0 <= q < k - 1 implies (#[trigger] s.drop_first()[q]) != a by {
            assert(s.drop_first()[q] == s[q + 1]);
        }
        lemma_first_index_of(s.drop_first(), a, k - 1);
    }
}

/// One node's entire mutable state: its identity, its view of the
/// network, the items it holds, its outstanding existence queries, and
/// the record of where it pushed redundant copies.
pub struct Peer {
    /// The node's own name; a membership key.
    pub name: String,
    /// The node's own address, fixed for the process lifetime.
    pub ip_address: Addr,
    /// Name-to-address view of all known peers.
    pub network_table: AssocMap<String, Addr>,
    /// The items this node physically holds.
    pub database: Database,
    /// Outstanding existence queries: request id to original intent.
    pub open_request_table: AssocMap<u64, FileInstructions>,
    /// Which item names this node pushed to which peer as their single
    /// redundant copy (and from whom it received such copies).
    pub redundancy_table: AssocMap<Addr, Vec<String>>,
}

impl Peer {
    /// All four tables bind pairwise distinct keys.
    pub open spec fn wf(&self) -> bool {
        &&& self.network_table.wf()
        &&& self.database.wf()
        &&& self.open_request_table.wf()
        &&& self.redundancy_table.wf()
    }

    /// Creates a new `Peer` with an empty store and an empty redundancy
    /// record.
    pub fn create(
        ip_address: Addr,
        own_name: &str,
        network_table: AssocMap<String, Addr>,
        open_request_table: AssocMap<u64, FileInstructions>,
    ) -> (r: Peer)
        requires
            network_table.wf(),
            open_request_table.wf(),
        ensures
            r.wf(),
            r.name@ == own_name@,
            r.ip_address == ip_address,
            r.network_table == network_table,
            r.open_request_table == open_request_table,
            r.database.data@ == Map::<Seq<char>, Vec<u8>>::empty(),
            r.redundancy_table@ == Map::<Addr, Vec<String>>::empty(),
    {
        Peer {
            name: own_name.to_owned(),
            ip_address,
            network_table,
            database: Database::new(),
            open_request_table,
            redundancy_table: AssocMap::empty(),
        }
    }

    pub fn get_ip(&self) -> (r: &Addr)
        ensures
            *r == self.ip_address,
    {
        &self.ip_address
    }

    pub fn get_db(&self) -> (r: &Database)
        ensures
            *r == self.database,
    {
        &self.database
    }

    pub fn get_network(&self) -> (r: &AssocMap<String, Addr>)
        ensures
            *r == self.network_table,
    {
        &self.network_table
    }

    /// Stores an item locally, overwriting any earlier content under the
    /// same name (last write wins).
    pub fn process_store_request(&mut self, data: (String, Vec<u8>))
        requires
            old(self).wf(),
        ensures
            final(self).wf(),
            final(self).database.data@ == old(self).database.data@.insert(data.0@, data.1),
            unchanged_but_database(old(self), final(self)),
    {
        self.database.data.insert(data.0, data.1);
    }

    /// The content stored under `name`, if this node holds it.
    pub fn find_file(&self, name: &str) -> (r: Option<&Vec<u8>>)
        requires
            self.wf(),
        ensures
            (r is Some) == self.database.data@.contains_key(name@),
            (r matches Some(v) ==> self.database.data@[name@] == *v),
    {
        let owned: String = name.to_owned();
        self.database.data.get(&owned)
    }

    /// Whether this node holds an item named `name`.
    pub fn does_file_exist(&self, name: &str) -> (r: bool)
        requires
            self.wf(),
        ensures
            r == self.database.data@.contains_key(name@),
    {
        match self.find_file(name) {
            Some(_t) => true,
            None => false,
        }
    }

    /// Records an outstanding existence query under the request id `time`.
    pub fn add_new_request(&mut self, time: u64, content: FileInstructions)
        requires
            old(self).wf(),
        ensures
            final(self).wf(),
            final(self).open_request_table@ == old(self).open_request_table@.insert(time, content),
            unchanged_but_requests(old(self), final(self)),
    {
        self.open_request_table.insert(time, content);
    }

    /// Forgets the outstanding query with id `time`, so that later
    /// responses for it are recognised as stale.
    pub fn delete_handled_request(&mut self, time: u64)
        requires
            old(self).wf(),
        ensures
            final(self).wf(),
            final(self).open_request_table@ == old(self).open_request_table@.remove(time),
            unchanged_but_requests(old(self), final(self)),
    {
        self.open_request_table.remove(&time);
    }

    /// Removes an item from the local store, if it is there.
    pub fn delete_file_from_database(&mut self, song_name: &str)
        requires
            old(self).wf(),
        ensures
            final(self).wf(),
            final(self).database.data@ == old(self).database.data@.remove(song_name@),
            unchanged_but_database(old(self), final(self)),
    {
        let owned: String = song_name.to_owned();
        self.database.data.remove(&owned);
    }

    /// Removes every membership entry bound to the address `addr`.
    pub fn drop_peer_by_ip(&mut self, addr: &Addr)
        requires
            old(self).wf(),
        ensures
            final(self).wf(),
            final(self).network_table@ == drop_addr(old(self).network_table@, *addr),
            final(self).network_table.entries@.len() <= old(self).network_table.entries@.len(),
            unchanged_but_network(old(self), final(self)),
    {
        loop
            invariant
                self.network_table.wf(),
                drop_addr(self.network_table@, *addr) == drop_addr(old(self).network_table@, *addr),
                self.network_table.entries@.len() <= old(self).network_table.entries@.len(),
                self.name == old(self).name,
                self.ip_address == old(self).ip_address,
                self.database == old(self).database,
                self.open_request_table == old(self).open_request_table,
                self.redundancy_table == old(self).redundancy_table,
            ensures
                self.network_table.wf(),
                self.network_table@ == drop_addr(old(self).network_table@, *addr),
                self.network_table.entries@.len() <= old(self).network_table.entries@.len(),
                self.name == old(self).name,
                self.ip_address == old(self).ip_address,
                self.database == old(self).database,
                self.open_request_table == old(self).open_request_table,
                self.redundancy_table == old(self).redundancy_table,
            decreases self.network_table.entries@.len(),
        {
            let ghost s = self.network_table.entries@;
            match position_addr(&self.network_table.entries, addr) {
                Some(i) => {
                    proof {
                        lemma_assoc_map_index(s);
                        lemma_assoc_map_remove(s, i as int);
                        assert(drop_addr(assoc_map(s).remove(s[i as int].0.key_view()), *addr)
                            =~= drop_addr(assoc_map(s), *addr));
                    }
                    self.network_table.entries.remove(i);
                },
                None => {
                    proof {
                        lemma_assoc_map_dom(s);
                        lemma_assoc_map_index(s);
                        assert forall|k: Seq<char>| self.network_table@.contains_key(k)
                            implies self.network_table@[k] != *addr by {
                            let i = choose|i: int|
                                0 <= i < s.len() && (#[trigger] s[i].0.key_view()) == k;
                            assert(assoc_map(s)[s[i].0.key_view()] == s[i].1);
                        }
                        assert(drop_addr(self.network_table@, *addr) =~= self.network_table@);
                    }
                    break ;
                },
            }
        }
    }
    /// The addresses of all known peers, sorted by port: the deterministic
    /// order in which the failure monitor walks the network.
    pub fn get_all_socketaddr_from_peers(&self) -> (r: Vec<Addr>)
        ensures
            sorted_by_port(r@),
            r@ == sorted_addrs(entry_addrs(self.network_table.entries@)),
            r@.to_multiset() == entry_addrs(self.network_table.entries@).to_multiset(),
            r@.len() == self.network_table.entries@.len(),
    {
        let ghost s = self.network_table.entries@;
        let n = self.network_table.entries.len();
        let mut addresses: Vec<Addr> = Vec::new();
        let mut i: usize = 0;
        proof {
            assert(addresses@ =~= entry_addrs(s).take(0));
            assert(addresses@ =~= sorted_addrs(entry_addrs(s).take(0)));
        }
        while i < n
            invariant
                i <= n,
                n == s.len(),
                s == self.network_table.entries@,
                sorted_by_port(addresses@),
                addresses@.len() == i,
                addresses@ == sorted_addrs(entry_addrs(s).take(i as int)),
                addresses@.to_multiset() == entry_addrs(s).take(i as int).to_multiset(),
            decreases n - i,
        {
            let val = self.network_table.entries[i].1;
            let ghost before = addresses@;
            let mut p: usize = 0;
            while p < addresses.len()
                invariant
                    p <= addresses@.len(),
                    addresses@ == before,
                    forall|q: int| 0 <= q < p ==> (#[trigger] addresses@[q]).port <= val.port,
                ensures
                    p <= addresses@.len(),
                    addresses@ == before,
                    forall|q: int| 0 <= q < p ==> (#[trigger] addresses@[q]).port <= val.port,
                    p < addresses@.len() ==> addresses@[p as int].port > val.port,
                decreases addresses@.len() - p,
            {
                if addresses[p].port <= val.port {
                    p = p + 1;
                } else {
                    break ;
                }
            }
            proof {
                broadcast use vstd::seq_lib::group_to_multiset_ensures;

                let t = before.insert(p as int, val);
                assert(t.remove(p as int) =~= before);
                assert(t[p as int] == val);
                assert(t.to_multiset().remove(val) =~= before.to_multiset());
                assert(t.contains(val));
                assert(t.to_multiset().count(val) > 0);
                assert(t.to_multiset() =~= before.to_multiset().insert(val));
                assert(entry_addrs(s).take(i + 1) =~= entry_addrs(s).take(i as int).push(s[i as int].1));
                assert(entry_addrs(s).take(i + 1).drop_last() =~= entry_addrs(s).take(i as int));
                assert(entry_addrs(s).take(i + 1).last() == val);
                lemma_insert_by_port_at(before, val, p as int);
                assert forall|x: int, y: int| 0 <= x <= y < t.len() implies (#[trigger] t[x]).port
                    <= (#[trigger] t[y]).port by {
                    if p < before.len() {
                        assert(before[p as int].port > val.port);
                    }
                }
            }
            addresses.insert(p, val);
            i = i + 1;
        }
        proof {
            assert(entry_addrs(s).take(n as int) =~= entry_addrs(s));
        }
        addresses
    }

    /// Up to three peers that follow this node in the port-sorted order,
    /// wrapping around at the end: the bounded subset the failure monitor
    /// probes when the network is large.  With at least four members, and
    /// the node's own address bound at most once, the node never probes
    /// itself.
    pub fn get_heartbeat_successors(&mut self) -> (r: Vec<Addr>)
        ensures
            *final(self) == *old(self),
            r@.len() <= 3,
            forall|i: int|
                0 <= i < r@.len() ==> has_addr(old(self).network_table.entries@, #[trigger] r@[i]),
            old(self).network_table.entries@.len() >= 4 ==> r@.len() == 3,
            old(self).network_table.entries@.len() >= 4 && entry_addrs(
                old(self).network_table.entries@,
            ).to_multiset().count(old(self).ip_address) <= 1 ==> forall|i: int|
                0 <= i < r@.len() ==> #[trigger] r@[i] != old(self).ip_address,
            r@ == cyclic_successors(
                sorted_addrs(entry_addrs(old(self).network_table.entries@)),
                own_position(
                    sorted_addrs(entry_addrs(old(self).network_table.entries@)),
                    old(self).ip_address,
                ),
                1,
            ),
    {
        let ghost entries = self.network_table.entries@;
        let addresses = self.get_all_socketaddr_from_peers();
        let ghost safe = entries.len() >= 4 && entry_addrs(entries).to_multiset().count(
            self.ip_address,
        ) <= 1;
        let ghost sorted = addresses@;
        let n = addresses.len();
        let mut successors: Vec<Addr> = Vec::new();
        if n == 0 {
            return successors;
        }
        let mut own_index: usize = 0;
        let mut k: usize = 0;
        while k < n
            invariant_except_break
                own_index == 0,
            invariant
                k <= n,
                n >= 1,
                n == addresses@.len(),
                forall|q: int| 0 <= q < k ==> (#[trigger] addresses@[q]) != self.ip_address,
            ensures
                own_index < n,
                n == addresses@.len(),
                addresses@[own_index as int] == self.ip_address || forall|q: int|
                    0 <= q < n ==> (#[trigger] addresses@[q]) != self.ip_address,
                own_index as int == own_position(addresses@, self.ip_address),
            decreases n - k,
        {
            if addresses[k] == self.ip_address {
                own_index = k;
                proof {
                    assert(own_index < n);
                    lemma_first_index_of(addresses@, self.ip_address, k as int);
                }
                break ;
            }
            k = k + 1;
        }
        proof {
            if !addresses@.contains(self.ip_address) {
                assert(own_position(addresses@, self.ip_address) == 0);
            }
        }
        proof {
            if safe && addresses@[own_index as int] == self.ip_address {
                assert forall|q: int|
                    0 <= q < n && q != own_index implies (#[trigger] addresses@[q])
                    != self.ip_address by {
                    if addresses@[q] == self.ip_address {
                        if q < own_index {
                            lemma_duplicate_counts_twice(addresses@, q, own_index as int);
                        } else {
                            lemma_duplicate_counts_twice(addresses@, own_index as int, q);
                        }
                    }
                }
            }
        }
        let rem = n - 1 - own_index;
        let mut step: usize = 1;
        while step <= 3
            invariant
                1 <= step <= 4,
                n == addresses@.len(),
                n >= 1,
                own_index < n,
                rem == n - 1 - own_index,
                n == entries.len(),
                entries == self.network_table.entries@,
                safe == (entries.len() >= 4 && entry_addrs(entries).to_multiset().count(
                    self.ip_address,
                ) <= 1),
                addresses@.to_multiset() == entry_addrs(entries).to_multiset(),
                safe ==> forall|q: int|
                    0 <= q < n && q != own_index ==> (#[trigger] addresses@[q]) != self.ip_address,
                successors@.len() == step - 1,
                sorted == addresses@,
                cyclic_successors(sorted, own_index as int, 1) == successors@ + cyclic_successors(
                    sorted,
                    own_index as int,
                    step as int,
                ),
                forall|i: int|
                    0 <= i < successors@.len() ==> has_addr(entries, #[trigger] successors@[i]),
                safe ==> forall|i: int|
                    0 <= i < successors@.len() ==> (#[trigger] successors@[i]) != self.ip_address,
            ensures
                entries == self.network_table.entries@,
                successors@.len() <= 3,
                n >= 4 ==> successors@.len() == 3,
                successors@ == cyclic_successors(sorted, own_index as int, 1),
                forall|i: int|
                    0 <= i < successors@.len() ==> has_addr(entries, #[trigger] successors@[i]),
                safe ==> forall|i: int|
                    0 <= i < successors@.len() ==> (#[trigger] successors@[i]) != self.ip_address,
            decreases 4 - step,
        {
            let a: Addr;
            if step <= rem {
                a = addresses[own_index + step];
                proof {
                    assert(cyclic_successors(sorted, own_index as int, step as int) == seq![
                        sorted[own_index + step],
                    ] + cyclic_successors(sorted, own_index as int, step + 1));
                    assert(successors@.push(a) + cyclic_successors(
                        sorted,
                        own_index as int,
                        step + 1,
                    ) =~= successors@ + cyclic_successors(sorted, own_index as int, step as int));
                }
            } else {
                let j = step - rem - 1;
                if j >= n {
                    assert(n <= 2);
                    proof {
                        assert(cyclic_successors(sorted, own_index as int, step as int)
                            =~= Seq::<Addr>::empty());
                        assert(successors@ + cyclic_successors(sorted, own_index as int, step as int)
                            =~= successors@);
                    }
                    break ;
                }
                proof {
                    if safe {
                        assert(n >= 4);
                        assert(j < own_index);
                    }
                    assert(own_index + step - n == j);
                    assert(cyclic_successors(sorted, own_index as int, step as int) == seq![
                        sorted[j as int],
                    ] + cyclic_successors(sorted, own_index as int, step + 1));
                    assert(successors@.push(sorted[j as int]) + cyclic_successors(
                        sorted,
                        own_index as int,
                        step + 1,
                    ) =~= successors@ + cyclic_successors(sorted, own_index as int, step as int));
                }
                a = addresses[j];
            }
            proof {
                lemma_addr_member(entries, addresses@, a);
            }
            successors.push(a);
            step = step + 1;
        }
        proof {
            assert(cyclic_successors(sorted, own_index as int, 4) =~= Seq::<Addr>::empty());
        }
        successors
    }
}

/// An address that stands at two positions of a sequence is counted at
/// least twice in the sequence's multiset.
pub proof fn lemma_duplicate_counts_twice(s: Seq<Addr>, i: int, j: int)
    requires
        0 <= i < j < s.len(),
        s[i] == s[j],
    ensures
        s.to_multiset().count(s[i]) >= 2,
{
    broadcast use vstd::seq_lib::group_to_multiset_ensures;

    let t = s.remove(i);
    assert(t[j - 1] == s[j]);
    assert(t.contains(s[i]));
    assert(t.to_multiset().count(s[i]) > 0);
    assert(t.to_multiset() == s.to_multiset().remove(s[i]));
    assert(s.to_multiset().contains(s[i]));
    assert(s.to_multiset().remove(s[i]).count(s[i]) == s.to_multiset().count(s[i]) - 1);
}

/// An address drawn from a sequence whose multiset matches the table's
/// addresses is bound by some entry of the table.
pub proof fn lemma_addr_member(s: Seq<(String, Addr)>, addrs: Seq<Addr>, a: Addr)
    requires
        addrs.to_multiset() == entry_addrs(s).to_multiset(),
        addrs.contains(a),
    ensures
        has_addr(s, a),
{
    broadcast use vstd::seq_lib::group_to_multiset_ensures;

    assert(addrs.to_multiset().count(a) > 0);
    assert(entry_addrs(s).contains(a));
    let i = choose|i: int| 0 <= i < entry_addrs(s).len() && entry_addrs(s)[i] == a;
    assert(s[i].1 == a);
}

/// An exact copy of a vector of bytes.
pub fn clone_bytes(v: &Vec<u8>) -> (r: Vec<u8>)
    ensures
        r@ == v@,
{
    let n = v.len();
    let mut r: Vec<u8> = Vec::new();
    let mut i: usize = 0;
    while i < n
        invariant
            i <= n,
            n == v@.len(),
            r@ =~= v@.take(i as int),
        decreases n - i,
    {
        r.push(v[i]);
        i = i + 1;
    }
    proof {
        assert(v@.take(n as int) =~= v@);
    }
    r
}

/// An exact copy of a vector of membership entries.
pub fn clone_entries(v: &Vec<(String, Addr)>) -> (r: Vec<(String, Addr)>)
    ensures
        r@ == v@,
{
    let n = v.len();
    let mut r: Vec<(String, Addr)> = Vec::new();
    let mut i: usize = 0;
    while i < n
        invariant
            i <= n,
            n == v@.len(),
            r@ =~= v@.take(i as int),
        decreases n - i,
    {
        let name = v[i].0.clone();
        let addr = v[i].1;
        assert((name, addr) == v@[i as int]);
        r.push((name, addr));
        i = i + 1;
    }
    proof {
        assert(v@.take(n as int) =~= v@);
    }
    r
}

/// The position of the first membership entry bound to `addr`, if any.
fn position_addr(entries: &Vec<(String, Addr)>, addr: &Addr) -> (r: Option<usize>)
    ensures
        match r {
            Some(i) => i < entries@.len() && entries@[i as int].1 == *addr,
            None => !has_addr(entries@, *addr),
        },
{
    let n = entries.len();
    let mut i: usize = 0;
    while i < n
        invariant
            i <= n,
            n == entries@.len(),
            forall|j: int| 0 <= j < i ==> (#[trigger] entries@[j]).1 != *addr,
        decreases n - i,
    {
        if entries[i].1 == *addr {
            return Some(i);
        }
        i = i + 1;
    }
    None
}

/// All fields agree except possibly the local store.
pub open spec fn unchanged_but_database(a: &Peer, b: &Peer) -> bool {
    &&& b.name == a.name
    &&& b.ip_address == a.ip_address
    &&& b.network_table == a.network_table
    &&& b.open_request_table == a.open_request_table
    &&& b.redundancy_table == a.redundancy_table
}

/// All fields agree except possibly the pending-request ledger.
pub open spec fn unchanged_but_requests(a: &Peer, b: &Peer) -> bool {
    &&& b.name == a.name
    &&& b.ip_address == a.ip_address
    &&& b.network_table == a.network_table
    &&& b.database == a.database
    &&& b.redundancy_table == a.redundancy_table
}

/// All fields agree except possibly the membership table.
pub open spec fn unchanged_but_network(a: &Peer, b: &Peer) -> bool {
    &&& b.name == a.name
    &&& b.ip_address == a.ip_address
    &&& b.database == a.database
    &&& b.open_request_table == a.open_request_table
    &&& b.redundancy_table == a.redundancy_table
}

/// Creates the first peer of a new network: its membership table holds
/// only its own name and address.
pub fn create_peer(own_name: &str, ip_address: Addr) -> (r: Peer)
    ensures
        r.wf(),
        r.name@ == own_name@,
        r.ip_address == ip_address,
        r.network_table@ == Map::<Seq<char>, Addr>::empty().insert(own_name@, ip_address),
        r.database.data@ == Map::<Seq<char>, Vec<u8>>::empty(),
        r.open_request_table@ == Map::<u64, FileInstructions>::empty(),
        r.redundancy_table@ == Map::<Addr, Vec<String>>::empty(),
{
    let mut network_table: AssocMap<String, Addr> = AssocMap::empty();
    network_table.insert(own_name.to_owned(), ip_address);
    let open_request_table: AssocMap<u64, FileInstructions> = AssocMap::empty();
    Peer::create(ip_address, own_name, network_table, open_request_table)
}

} // verus!
