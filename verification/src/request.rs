use crate::addr::Addr;
use crate::assoc::{assoc_map, lemma_assoc_map_dom, AssocMap, Key};
use crate::message::{Action, Content, FileInstructions, FileStatus};
use crate::peer::{
    clone_bytes, clone_entries, drop_addr, has_addr, unchanged_but_database,
    unchanged_but_network, unchanged_but_requests, Peer,
};
use crate::trusted::random_index;
use vstd::prelude::*;
use vstd::string::StringExecFns;

verus! {

/// The addresses of the entries whose name is not `skip`, in entry order:
/// the recipients of a broadcast that leaves the node itself out.
pub open spec fn addrs_except_name(s: Seq<(String, Addr)>, skip: Seq<char>) -> Seq<Addr>
    decreases s.len(),
{
    if s.len() == 0 {
        Seq::empty()
    } else {
        let rest = addrs_except_name(s.drop_last(), skip);
        if s.last().0@ == skip {
            rest
        } else {
            rest.push(s.last().1)
        }
    }
}

/// The addresses of the entries not bound to `skip`, in entry order: the
/// recipients of a broadcast that leaves one address out.
pub open spec fn addrs_except_addr(s: Seq<(String, Addr)>, skip: Addr) -> Seq<Addr>
    decreases s.len(),
{
    if s.len() == 0 {
        Seq::empty()
    } else {
        let rest = addrs_except_addr(s.drop_last(), skip);
        if s.last().1 == skip {
            rest
        } else {
            rest.push(s.last().1)
        }
    }
}

/// Every address reached when skipping an address is bound by some entry
/// and differs from the skipped one; some entry binds another address
/// exactly when the list is non-empty.
pub proof fn lemma_addrs_except_addr(s: Seq<(String, Addr)>, skip: Addr)
    ensures
        forall|j: int|
            0 <= j < addrs_except_addr(s, skip).len() ==> has_addr(
                s,
                #[trigger] addrs_except_addr(s, skip)[j],
            ) && addrs_except_addr(s, skip)[j] != skip,
        addrs_except_addr(s, skip).len() > 0 <==> exists|i: int|
            0 <= i < s.len() && (#[trigger] s[i]).1 != skip,
    decreases s.len(),
{
    if s.len() > 0 {
        lemma_addrs_except_addr(s.drop_last(), skip);
        let r = addrs_except_addr(s, skip);
        let rest = addrs_except_addr(s.drop_last(), skip);
        assert forall|j: int| 0 <= j < r.len() implies has_addr(s, #[trigger] r[j]) && r[j]
            != skip by {
            if j < rest.len() {
                let i = choose|i: int|
                    0 <= i < s.drop_last().len() && (#[trigger] s.drop_last()[i]).1 == rest[j];
                assert(s[i].1 == rest[j]);
            } else {
                assert(s[s.len() - 1].1 == r[j]);
            }
        }
        if r.len() > 0 {
            if rest.len() > 0 {
                let i = choose|i: int|
                    0 <= i < s.drop_last().len() && (#[trigger] s.drop_last()[i]).1 != skip;
                assert(s[i].1 != skip);
            } else {
                assert(s[s.len() - 1].1 != skip);
            }
        }
        if exists|i: int| 0 <= i < s.len() && (#[trigger] s[i]).1 != skip {
            let i = choose|i: int| 0 <= i < s.len() && (#[trigger] s[i]).1 != skip;
            if i < s.len() - 1 {
                assert(s.drop_last()[i].1 != skip);
                assert(rest.len() > 0);
            }
        }
    }
}

/// Collects the addresses of all entries whose name is not `skip`.
pub fn collect_addrs_except_name(entries: &Vec<(String, Addr)>, skip: &String) -> (r: Vec<Addr>)
    ensures
        r@ == addrs_except_name(entries@, skip@),
{
    let n = entries.len();
    let mut r: Vec<Addr> = Vec::new();
    let mut i: usize = 0;
    proof {
        assert(r@ =~= addrs_except_name(entries@.take(0), skip@));
    }
    while i < n
        invariant
            i <= n,
            n == entries@.len(),
            r@ == addrs_except_name(entries@.take(i as int), skip@),
        decreases n - i,
    {
        proof {
            assert(entries@.take(i + 1).drop_last() =~= entries@.take(i as int));
            assert(entries@.take(i + 1).last() == entries@[i as int]);
        }
        if !entries[i].0.eq(skip) {
            r.push(entries[i].1);
        }
        i = i + 1;
    }
    proof {
        assert(entries@.take(n as int) =~= entries@);
    }
    r
}

/// Collects the addresses of all entries not bound to `skip`.
pub fn collect_addrs_except_addr(entries: &Vec<(String, Addr)>, skip: &Addr) -> (r: Vec<Addr>)
    ensures
        r@ == addrs_except_addr(entries@, *skip),
{
    let n = entries.len();
    let mut r: Vec<Addr> = Vec::new();
    let mut i: usize = 0;
    proof {
        assert(r@ =~= addrs_except_addr(entries@.take(0), *skip));
    }
    while i < n
        invariant
            i <= n,
            n == entries@.len(),
            r@ == addrs_except_addr(entries@.take(i as int), *skip),
        decreases n - i,
    {
        proof {
            assert(entries@.take(i + 1).drop_last() =~= entries@.take(i as int));
            assert(entries@.take(i + 1).last() == entries@[i as int]);
        }
        if entries[i].1 != *skip {
            r.push(entries[i].1);
        }
        i = i + 1;
    }
    proof {
        assert(entries@.take(n as int) =~= entries@);
    }
    r
}

/// Chooses a uniformly random known peer other than the caller itself.
/// Returns nothing when the node is alone, or in the degenerate case that
/// every membership entry is bound to the caller's own address.
pub fn other_random_target(network_table: &AssocMap<String, Addr>, own_ip: &Addr) -> (r: Option<
    Addr,
>)
    ensures
        (r matches Some(a) ==> a != *own_ip && has_addr(network_table.entries@, a)),
        network_table.entries@.len() == 1 ==> r is None,
        (network_table.entries@.len() != 1 && exists|i: int|
            0 <= i < network_table.entries@.len() && (#[trigger] network_table.entries@[i]).1
                != *own_ip) ==> r is Some,
{
    proof {
        lemma_addrs_except_addr(network_table.entries@, *own_ip);
    }
    if network_table.len() == 1 {
        return None;
    }
    let candidates = collect_addrs_except_addr(&network_table.entries, own_ip);
    if candidates.len() == 0 {
        return None;
    }
    let idx = random_index(candidates.len());
    Some(candidates[idx])
}

/// `s` with every name whose view is `k` taken out: a ledger item list
/// once the item's old record is purged.
pub open spec fn purge_names(s: Seq<String>, k: Seq<char>) -> Seq<String>
    decreases s.len(),
{
    if s.len() == 0 {
        Seq::empty()
    } else {
        let rest = purge_names(s.drop_last(), k);
        if s.last()@ == k {
            rest
        } else {
            rest.push(s.last())
        }
    }
}

/// What a purged list holds: names drawn from the old list, none of them
/// the purged one.
pub proof fn lemma_purge_names_elements(s: Seq<String>, k: Seq<char>)
    ensures
        forall|i: int|
            0 <= i < purge_names(s, k).len() ==> (#[trigger] purge_names(s, k)[i])@ != k && exists|
                j: int,
            | 0 <= j < s.len() && s[j] == purge_names(s, k)[i],
    decreases s.len(),
{
    if s.len() > 0 {
        lemma_purge_names_elements(s.drop_last(), k);
        let r = purge_names(s, k);
        let rest = purge_names(s.drop_last(), k);
        assert forall|i: int| 0 <= i < r.len() implies (#[trigger] r[i])@ != k && exists|j: int|
            0 <= j < s.len() && s[j] == r[i] by {
            if i < rest.len() {
                let j = choose|j: int| 0 <= j < s.drop_last().len() && s.drop_last()[j] == rest[i];
                assert(s[j] == r[i]);
            } else {
                assert(s[s.len() - 1] == r[i]);
            }
        }
    }
}

/// The new redundancy ledger records `k` under `t` and nowhere else: the
/// old record of `k`, wherever it stood, is purged, `k` is appended to
/// `t`'s list, and every other binding is untouched beyond that purge.
pub open spec fn ledger_after_record(
    before: Map<Addr, Vec<String>>,
    after: Map<Addr, Vec<String>>,
    t: Addr,
    k: String,
) -> bool {
    &&& after.dom() =~= before.dom().insert(t)
    &&& after[t]@ == (if before.contains_key(t) {
        purge_names(before[t]@, k@)
    } else {
        Seq::<String>::empty()
    }).push(k)
    &&& forall|a: Addr| a != t && before.contains_key(a) ==> after[a]@ == purge_names(before[a]@, k@)
}

/// An exact copy of a vector of item names.
fn clone_strings(v: &Vec<String>) -> (r: Vec<String>)
    ensures
        r@ == v@,
{
    let n = v.len();
    let mut r: Vec<String> = Vec::new();
    let mut i: usize = 0;
    while i < n
        invariant
            i <= n,
            n == v@.len(),
            r@ =~= v@.take(i as int),
        decreases n - i,
    {
        r.push(v[i].clone());
        i = i + 1;
    }
    proof {
        assert(v@.take(n as int) =~= v@);
    }
    r
}

/// All fields agree except possibly the redundancy ledger.
pub open spec fn unchanged_but_redundancy(a: &Peer, b: &Peer) -> bool {
    &&& b.name == a.name
    &&& b.ip_address == a.ip_address
    &&& b.network_table == a.network_table
    &&& b.database == a.database
    &&& b.open_request_table == a.open_request_table
}

/// `list` without the copies of `key`.
fn purge_name(list: &Vec<String>, key: &String) -> (r: Vec<String>)
    ensures
        r@ == purge_names(list@, key@),
{
    let n = list.len();
    let mut r: Vec<String> = Vec::new();
    let mut i: usize = 0;
    proof {
        assert(r@ =~= purge_names(list@.take(0), key@));
    }
    while i < n
        invariant
            i <= n,
            n == list@.len(),
            r@ == purge_names(list@.take(i as int), key@),
        decreases n - i,
    {
        proof {
            assert(list@.take(i + 1).drop_last() =~= list@.take(i as int));
            assert(list@.take(i + 1).last() == list@[i as int]);
        }
        if !list[i].eq(key) {
            r.push(list[i].clone());
        }
        i = i + 1;
    }
    proof {
        assert(list@.take(n as int) =~= list@);
    }
    r
}

/// Records in the redundancy ledger that `key` now has its single
/// redundant copy at `target`: any older record of `key` is purged first,
/// so that the item stays recorded at one address only.
fn record_redundant(peer: &mut Peer, target: Addr, key: String)
    requires
        old(peer).wf(),
    ensures
        final(peer).wf(),
        ledger_after_record(old(peer).redundancy_table@, final(peer).redundancy_table@, target, key),
        unchanged_but_redundancy(old(peer), final(peer)),
{
    let ghost s0 = old(peer).redundancy_table.entries@;
    let n = peer.redundancy_table.entries.len();
    let mut i: usize = 0;
    while i < n
        invariant
            i <= n,
            n == peer.redundancy_table.entries@.len(),
            n == s0.len(),
            crate::assoc::unique_keys(s0),
            unchanged_but_redundancy(old(peer), peer),
            forall|j: int|
                0 <= j < n ==> (#[trigger] peer.redundancy_table.entries@[j]).0 == s0[j].0,
            forall|j: int|
                0 <= j < i ==> (#[trigger] peer.redundancy_table.entries@[j]).1@ == purge_names(
                    s0[j].1@,
                    key@,
                ),
            forall|j: int|
                i <= j < n ==> (#[trigger] peer.redundancy_table.entries@[j]).1 == s0[j].1,
        decreases n - i,
    {
        let purged = purge_name(&peer.redundancy_table.entries[i].1, &key);
        let addr = peer.redundancy_table.entries[i].0;
        peer.redundancy_table.entries.set(i, (addr, purged));
        i = i + 1;
    }
    proof {
        let s1 = peer.redundancy_table.entries@;
        assert forall|x: int, y: int|
            0 <= x < y < s1.len() implies (#[trigger] s1[x].0.key_view())
            != (#[trigger] s1[y].0.key_view()) by {
            assert(s0[x].0.key_view() != s0[y].0.key_view());
        }
        crate::assoc::lemma_assoc_map_dom(s0);
        crate::assoc::lemma_assoc_map_index(s0);
        crate::assoc::lemma_assoc_map_dom(s1);
        crate::assoc::lemma_assoc_map_index(s1);
        assert(assoc_map(s1).dom() =~= assoc_map(s0).dom()) by {
            assert forall|a: Addr| #[trigger] assoc_map(s1).contains_key(a) implies assoc_map(
                s0,
            ).contains_key(a) by {
                let j = choose|j: int| 0 <= j < s1.len() && (#[trigger] s1[j].0.key_view()) == a;
                assert(s0[j].0.key_view() == a);
            }
            assert forall|a: Addr| #[trigger] assoc_map(s0).contains_key(a) implies assoc_map(
                s1,
            ).contains_key(a) by {
                let j = choose|j: int| 0 <= j < s0.len() && (#[trigger] s0[j].0.key_view()) == a;
                assert(s1[j].0.key_view() == a);
            }
        }
        assert forall|a: Addr| #[trigger] assoc_map(s0).contains_key(a) implies assoc_map(
            s1,
        )[a]@ == purge_names(assoc_map(s0)[a]@, key@) by {
            let j = choose|j: int| 0 <= j < s0.len() && (#[trigger] s0[j].0.key_view()) == a;
            assert(assoc_map(s0)[a] == s0[j].1);
            assert(s1[j].0.key_view() == a);
            assert(assoc_map(s1)[a] == s1[j].1);
        }
    }
    let mut songs: Vec<String> = match peer.redundancy_table.get(&target) {
        Some(v) => clone_strings(v),
        None => Vec::new(),
    };
    songs.push(key);
    peer.redundancy_table.insert(target, songs);
}

/// The action that sends `k`'s bytes to `t` as a redundant copy pushed by
/// `from`.
pub open spec fn is_redundant_push(a: Action, t: Addr, k: Seq<char>, v: Seq<u8>, from: Addr) -> bool {
    a matches Action::Send {
        to,
        content: Content::RedundantPushToDB { key, value, from: f },
    } && to == t && key@ == k && value@ == v && f == from
}

/// Stores a user-pushed item locally — overwriting on conflict, the last
/// write wins — and replicates it: when another peer exists, exactly one
/// redundant copy is pushed to a random other peer and recorded in the
/// redundancy ledger; a node alone stores the item and nothing more.
pub fn push_to_db(key: String, value: Vec<u8>, peer: &mut Peer) -> (r: Vec<Action>)
    requires
        old(peer).wf(),
    ensures
        final(peer).wf(),
        final(peer).database.data@ == old(peer).database.data@.insert(key@, value),
        final(peer).name == old(peer).name,
        final(peer).ip_address == old(peer).ip_address,
        final(peer).network_table == old(peer).network_table,
        final(peer).open_request_table == old(peer).open_request_table,
        1 <= r@.len() <= 2,
        r@[0] == (Action::DatabaseChanged { key, status: FileStatus::New }),
        (old(peer).network_table.entries@.len() != 1 && has_other_addr(
            old(peer).network_table.entries@,
            old(peer).ip_address,
        )) ==> r@.len() == 2 && exists|t: Addr|
            {
                &&& #[trigger] has_addr(old(peer).network_table.entries@, t)
                &&& t != old(peer).ip_address
                &&& is_redundant_push(r@[1], t, key@, value@, old(peer).ip_address)
                &&& ledger_after_record(
                    old(peer).redundancy_table@,
                    final(peer).redundancy_table@,
                    t,
                    key,
                )
            },
        (old(peer).network_table.entries@.len() == 1 || !has_other_addr(
            old(peer).network_table.entries@,
            old(peer).ip_address,
        )) ==> r@.len() == 1 && final(peer).redundancy_table == old(peer).redundancy_table,
{
    let mut r: Vec<Action> = Vec::new();
    let key_bytes = clone_bytes(&value);
    let key_for_push = key.clone();
    let key_for_ledger = key.clone();
    peer.process_store_request((key, value));
    r.push(Action::DatabaseChanged { key: key_for_ledger.clone(), status: FileStatus::New });
    let own_ip = peer.ip_address;
    let redundant_target = other_random_target(&peer.network_table, &own_ip);
    match redundant_target {
        Some(target) => {
            r.push(
                Action::Send {
                    to: target,
                    content: Content::RedundantPushToDB {
                        key: key_for_push,
                        value: key_bytes,
                        from: own_ip,
                    },
                },
            );
            record_redundant(peer, target, key_for_ledger);
        },
        None => {},
    }
    r
}

/// Stores an item that another peer pushed here as its single redundant
/// copy, and records whom it came from.
pub fn redundant_push_to_db(key: String, value: Vec<u8>, peer: &mut Peer, from: Addr) -> (r: Vec<
    Action,
>)
    requires
        old(peer).wf(),
    ensures
        final(peer).wf(),
        final(peer).database.data@ == old(peer).database.data@.insert(key@, value),
        final(peer).name == old(peer).name,
        final(peer).ip_address == old(peer).ip_address,
        final(peer).network_table == old(peer).network_table,
        final(peer).open_request_table == old(peer).open_request_table,
        ledger_after_record(old(peer).redundancy_table@, final(peer).redundancy_table@, from, key),
        r@.len() == 1 && r@[0] == (Action::DatabaseChanged { key, status: FileStatus::New }),
{
    let key_clone = key.clone();
    let key_redundant_clone = key.clone();
    peer.process_store_request((key, value));
    record_redundant(peer, from, key_redundant_clone);
    let mut r: Vec<Action> = Vec::new();
    r.push(Action::DatabaseChanged { key: key_clone, status: FileStatus::New });
    r
}

/// Adopts a new name after a collision: the old self-entry leaves the
/// membership table, the new one enters it, and the join handshake is
/// retried with the sender.
pub fn change_peer_name(value: String, sender: Addr, peer: &mut Peer) -> (r: Vec<Action>)
    requires
        old(peer).wf(),
    ensures
        final(peer).wf(),
        final(peer).name == value,
        final(peer).network_table@ == old(peer).network_table@.remove(old(peer).name@).insert(
            value@,
            old(peer).ip_address,
        ),
        final(peer).ip_address == old(peer).ip_address,
        final(peer).database == old(peer).database,
        final(peer).open_request_table == old(peer).open_request_table,
        final(peer).redundancy_table == old(peer).redundancy_table,
        r@.len() == 1 && (r@[0] matches Action::Send {
            to,
            content: Content::RequestForTable { value: v },
        } && to == sender && v@ == value@),
{
    let old_name = peer.name.clone();
    peer.name = value;
    peer.network_table.remove(&old_name);
    let self_entry = peer.name.clone();
    peer.network_table.insert(self_entry, peer.ip_address);
    let mut r: Vec<Action> = Vec::new();
    r.push(Action::Send { to: sender, content: Content::RequestForTable { value: peer.name.clone() } });
    r
}

/// Responds to a join handshake: a taken name draws a rename suggestion
/// (the name with `+1` appended), a free one draws the full table.
pub fn request_for_table(value: String, sender: Addr, peer: &mut Peer) -> (r: Vec<Action>)
    requires
        old(peer).wf(),
    ensures
        final(peer).wf(),
        *final(peer) == *old(peer),
        r@.len() == 1,
        old(peer).network_table@.contains_key(value@) ==> (r@[0] matches Action::Send {
            to,
            content: Content::ChangePeerName { value: v },
        } && to == sender && v@ == value@ + "+1"@),
        !old(peer).network_table@.contains_key(value@) ==> (r@[0] matches Action::Send {
            to,
            content: Content::SendNetworkTable { entries },
        } && to == sender && entries@ == old(peer).network_table.entries@),
{
    let mut r: Vec<Action> = Vec::new();
    if peer.network_table.contains_key(&value) {
        let name = value.clone().concat("+1");
        r.push(Action::Send { to: sender, content: Content::ChangePeerName { value: name } });
    } else {
        let entries = clone_entries(&peer.network_table.entries);
        r.push(Action::Send { to: sender, content: Content::SendNetworkTable { entries } });
    }
    r
}

/// Removes a departed member from the membership table, if present.
pub fn delete_from_network(name: String, peer: &mut Peer)
    requires
        old(peer).wf(),
    ensures
        final(peer).wf(),
        final(peer).network_table@ == old(peer).network_table@.remove(name@),
        unchanged_but_network(old(peer), final(peer)),
{
    peer.network_table.remove(&name);
}

/// Answers an existence query: replies exactly when this node holds the
/// item, echoing the query id.
pub fn exist_file(song_name: String, id: u64, sender: Addr, peer: &mut Peer) -> (r: Vec<Action>)
    requires
        old(peer).wf(),
    ensures
        final(peer).wf(),
        *final(peer) == *old(peer),
        old(peer).database.data@.contains_key(song_name@) ==> r@.len() == 1 && (r@[0] matches
            Action::Send {
            to,
            content: Content::ExistFileResponse { key, id: i },
        } && to == sender && key@ == song_name@ && i == id),
        !old(peer).database.data@.contains_key(song_name@) ==> r@ =~= Seq::<Action>::empty(),
{
    let mut r: Vec<Action> = Vec::new();
    let exist = peer.does_file_exist(song_name.as_str());
    if exist {
        r.push(
            Action::Send { to: sender, content: Content::ExistFileResponse { key: song_name, id } },
        );
    }
    r
}

/// Acts on the first existence response for an outstanding query: the
/// ledger entry is consumed and the content is requested from the
/// responder, typed by the original intent.  A response whose id is not
/// in the ledger is stale or duplicated: it changes nothing and sends
/// nothing.
pub fn exist_file_response(song_name: String, id: u64, sender: Addr, peer: &mut Peer) -> (r: Vec<
    Action,
>)
    requires
        old(peer).wf(),
    ensures
        final(peer).wf(),
        !old(peer).open_request_table@.contains_key(id) ==> *final(peer) == *old(peer) && r@
            =~= Seq::<Action>::empty(),
        old(peer).open_request_table@.contains_key(id) ==> {
            &&& final(peer).open_request_table@ == old(peer).open_request_table@.remove(id)
            &&& unchanged_but_requests(old(peer), final(peer))
            &&& r@.len() == 1
            &&& (r@[0] matches Action::Send {
                to,
                content: Content::GetFile { key, instr },
            } && to == sender && key@ == song_name@ && instr == old(peer).open_request_table@[id])
        },
{
    let mut r: Vec<Action> = Vec::new();
    let instr: Option<FileInstructions> = match peer.open_request_table.get(&id) {
        Some(i) => Some(*i),
        None => None,
    };
    match instr {
        Some(instr) => {
            peer.delete_handled_request(id);
            r.push(
                Action::Send { to: sender, content: Content::GetFile { key: song_name, instr } },
            );
        },
        None => {},
    }
    r
}

/// Answers a content request: on a hit the bytes travel back tagged by
/// the intent; on a miss nothing is sent.
pub fn get_file(instr: FileInstructions, key: String, sender: Addr, peer: &mut Peer) -> (r: Vec<
    Action,
>)
    requires
        old(peer).wf(),
    ensures
        final(peer).wf(),
        *final(peer) == *old(peer),
        old(peer).database.data@.contains_key(key@) ==> r@.len() == 1 && (r@[0] matches
            Action::Send {
            to,
            content: Content::GetFileResponse { key: k, value, instr: i },
        } && to == sender && k@ == key@ && value@ == old(peer).database.data@[key@]@ && i == instr),
        !old(peer).database.data@.contains_key(key@) ==> r@ =~= Seq::<Action>::empty(),
{
    let mut r: Vec<Action> = Vec::new();
    let music: Option<Vec<u8>> = match peer.find_file(key.as_str()) {
        Some(m) => Some(clone_bytes(m)),
        None => None,
    };
    match music {
        Some(music) => {
            r.push(
                Action::Send {
                    to: sender,
                    content: Content::GetFileResponse { key, value: music, instr },
                },
            );
        },
        None => {},
    }
    r
}

/// Dispatches an arrived content by its intent: play it, save it to
/// disk, or absorb it into the local store as a relocated copy.  A
/// remove intent cannot arrive here and is rejected.
pub fn get_file_response(
    instr: &FileInstructions,
    key: &str,
    value: Vec<u8>,
    peer: &mut Peer,
) -> (r: Result<Vec<Action>, String>)
    requires
        old(peer).wf(),
    ensures
        final(peer).wf(),
        (r is Err) == (*instr == FileInstructions::Remove),
        (r matches Err(e) ==> e@ == "Unknown command"@ && *final(peer) == *old(peer)),
        *instr == FileInstructions::Play ==> *final(peer) == *old(peer) && (r matches Ok(acts)
            && acts@.len() == 1 && (acts@[0] matches Action::Play { key: k, value: v } && k@ == key@
            && v@ == value@)),
        *instr == FileInstructions::Get ==> *final(peer) == *old(peer) && (r matches Ok(acts)
            && acts@.len() == 1 && (acts@[0] matches Action::SaveToDisk { key: k, value: v } && k@
            == key@ && v@ == value@)),
        *instr == FileInstructions::Order ==> final(peer).database.data@ == old(
            peer,
        ).database.data@.insert(key@, value) && unchanged_but_database(old(peer), final(peer)) && (
        r matches Ok(acts) && acts@.len() == 0),
{
    match instr {
        FileInstructions::Play => {
            let mut acts: Vec<Action> = Vec::new();
            acts.push(Action::Play { key: key.to_owned(), value });
            Ok(acts)
        },
        FileInstructions::Get => {
            let mut acts: Vec<Action> = Vec::new();
            acts.push(Action::SaveToDisk { key: key.to_owned(), value });
            Ok(acts)
        },
        FileInstructions::Order => {
            peer.process_store_request((key.to_owned(), value));
            Ok(Vec::new())
        },
        FileInstructions::Remove => Err(String::from_str("Unknown command")),
    }
}

/// Removes the local copy of an item that was removed network-wide.
pub fn delete_file_request(song_name: &str, peer: &mut Peer)
    requires
        old(peer).wf(),
    ensures
        final(peer).wf(),
        final(peer).database.data@ == old(peer).database.data@.remove(song_name@),
        unchanged_but_database(old(peer), final(peer)),
{
    proof {
        lemma_assoc_map_dom(old(peer).database.data.entries@);
    }
    if peer.database.data.contains_key(&song_name.to_owned()) {
        peer.delete_file_from_database(song_name);
    } else {
        proof {
            assert(final(peer).database.data@ =~= old(peer).database.data@.remove(song_name@));
        }
    }
}

/// Replies to a status request with this node's item names and name.
pub fn status_request(sender: Addr, peer: &mut Peer) -> (r: Vec<Action>)
    requires
        old(peer).wf(),
    ensures
        final(peer).wf(),
        *final(peer) == *old(peer),
        r@.len() == 1,
        (r@[0] matches Action::Send {
            to,
            content: Content::StatusResponse { files, name },
        } && to == sender && name@ == old(peer).name@ && files@.len() == old(
            peer,
        ).database.data.entries@.len() && forall|j: int|
            0 <= j < files@.len() ==> (#[trigger] files@[j])@ == old(
                peer,
            ).database.data.entries@[j].0@),
{
    let res: Vec<String> = peer.get_db().get_data().keys();
    proof {
        assert forall|j: int| 0 <= j < res@.len() implies (#[trigger] res@[j])@
            == peer.database.data.entries@[j].0@ by {
            assert(res@[j].key_view() == peer.database.data.entries@[j].0.key_view());
        }
    }
    let peer_name = peer.name.clone();
    let mut r: Vec<Action> = Vec::new();
    r.push(Action::Send { to: sender, content: Content::StatusResponse { files: res, name: peer_name } });
    r
}

/// The action that asks `t` whether it holds the item named `k`, under
/// query id `id`.
pub open spec fn is_exist_query(a: Action, t: Addr, k: Seq<char>, id: u64) -> bool {
    a matches Action::Send {
        to,
        content: Content::ExistFile { key, id: i },
    } && to == t && key@ == k && i == id
}

/// The action that tells `t` to drop its copy of the item named `k`.
pub open spec fn is_delete_notice(a: Action, t: Addr, k: Seq<char>) -> bool {
    a matches Action::Send { to, content: Content::DeleteFileRequest { key } } && to == t && key@
        == k
}

/// The action that asks some peer other than `own` (drawn from the
/// entries `s`) to take over the item named `k`.
pub open spec fn is_order_to_other(a: Action, s: Seq<(String, Addr)>, own: Addr, k: Seq<char>) -> bool {
    exists|t: Addr|
        #[trigger] has_addr(s, t) && t != own && (a matches Action::Send {
            to,
            content: Content::OrderSongRequest { key },
        } && to == t && key@ == k)
}

/// The action that pushes the item named `k` with bytes `v` to some peer
/// other than `own`, drawn from the entries `s`.
pub open spec fn is_redundant_push_to_other(
    a: Action,
    s: Seq<(String, Addr)>,
    own: Addr,
    k: Seq<char>,
    v: Seq<u8>,
) -> bool {
    exists|t: Addr| #[trigger] has_addr(s, t) && t != own && is_redundant_push(a, t, k, v, own)
}

/// Some membership entry is bound to an address other than `own`: the
/// condition under which a replication target exists.
pub open spec fn has_other_addr(s: Seq<(String, Addr)>, own: Addr) -> bool {
    exists|i: int| 0 <= i < s.len() && (#[trigger] s[i]).1 != own
}

/// Broadcasts an existence query for `song_name` under id `id` to every
/// peer but this node itself, appending to `r`.
pub(crate) fn broadcast_exist_queries(r: &mut Vec<Action>, others: &Vec<Addr>, song_name: &String, id: u64)
    ensures
        final(r)@.len() == old(r)@.len() + others@.len(),
        forall|j: int| 0 <= j < old(r)@.len() ==> final(r)@[j] == old(r)@[j],
        forall|j: int|
            0 <= j < others@.len() ==> is_exist_query(
                #[trigger] final(r)@[old(r)@.len() + j],
                others@[j],
                song_name@,
                id,
            ),
{
    let n = others.len();
    let mut i: usize = 0;
    while i < n
        invariant
            i <= n,
            n == others@.len(),
            r@.len() == old(r)@.len() + i,
            forall|j: int| 0 <= j < old(r)@.len() ==> r@[j] == old(r)@[j],
            forall|j: int|
                0 <= j < i ==> is_exist_query(
                    #[trigger] r@[old(r)@.len() + j],
                    others@[j],
                    song_name@,
                    id,
                ),
        decreases n - i,
    {
        r.push(
            Action::Send {
                to: others[i],
                content: Content::ExistFile { key: song_name.clone(), id },
            },
        );
        i = i + 1;
    }
}

/// Carries out one user file instruction.  An item this node already
/// holds is removed (network-wide, best effort) or saved to disk on the
/// spot; one it does not hold starts an existence query round under the
/// fresh request id `id`.
pub fn find_file(instr: FileInstructions, song_name: String, peer: &mut Peer, id: u64) -> (r: Vec<
    Action,
>)
    requires
        old(peer).wf(),
    ensures
        final(peer).wf(),
        old(peer).database.data@.contains_key(song_name@) && instr == FileInstructions::Remove
            ==> {
            &&& final(peer).database.data@ == old(peer).database.data@.remove(song_name@)
            &&& final(peer).open_request_table@ == old(peer).open_request_table@.insert(id, instr)
            &&& final(peer).name == old(peer).name
            &&& final(peer).ip_address == old(peer).ip_address
            &&& final(peer).network_table == old(peer).network_table
            &&& final(peer).redundancy_table == old(peer).redundancy_table
            &&& r@.len() == 1 + addrs_except_name(
                old(peer).network_table.entries@,
                old(peer).name@,
            ).len()
            &&& r@[0] == (Action::DatabaseChanged { key: song_name, status: FileStatus::Delete })
            &&& forall|j: int|
                0 <= j < r@.len() - 1 ==> is_delete_notice(
                    #[trigger] r@[1 + j],
                    addrs_except_name(old(peer).network_table.entries@, old(peer).name@)[j],
                    song_name@,
                )
        },
        old(peer).database.data@.contains_key(song_name@) && instr == FileInstructions::Get ==> {
            &&& *final(peer) == *old(peer)
            &&& r@.len() == 1
            &&& (r@[0] matches Action::SaveToDisk { key, value } && key@ == song_name@ && value@
                == old(peer).database.data@[song_name@]@)
        },
        old(peer).database.data@.contains_key(song_name@) && (instr == FileInstructions::Play
            || instr == FileInstructions::Order) ==> *final(peer) == *old(peer) && r@
            =~= Seq::<Action>::empty(),
        !old(peer).database.data@.contains_key(song_name@) ==> {
            &&& final(peer).open_request_table@ == old(peer).open_request_table@.insert(id, instr)
            &&& unchanged_but_requests(old(peer), final(peer))
            &&& r@.len() == addrs_except_name(
                old(peer).network_table.entries@,
                old(peer).name@,
            ).len()
            &&& forall|j: int|
                0 <= j < r@.len() ==> is_exist_query(
                    #[trigger] r@[j],
                    addrs_except_name(old(peer).network_table.entries@, old(peer).name@)[j],
                    song_name@,
                    id,
                )
        },
{
    let others = collect_addrs_except_name(&peer.network_table.entries, &peer.name);
    let mut r: Vec<Action> = Vec::new();
    if peer.does_file_exist(song_name.as_str()) {
        if instr == FileInstructions::Remove {
            peer.delete_file_from_database(song_name.as_str());
            peer.add_new_request(id, instr);
            let song_clone = song_name.clone();
            r.push(Action::DatabaseChanged { key: song_name, status: FileStatus::Delete });
            let n = others.len();
            let mut i: usize = 0;
            while i < n
                invariant
                    i <= n,
                    n == others@.len(),
                    r@.len() == 1 + i,
                    r@[0] == (Action::DatabaseChanged {
                        key: song_name,
                        status: FileStatus::Delete,
                    }),
                    song_clone@ == song_name@,
                    forall|j: int|
                        0 <= j < i ==> is_delete_notice(
                            #[trigger] r@[1 + j],
                            others@[j],
                            song_name@,
                        ),
                decreases n - i,
            {
                r.push(
                    Action::Send {
                        to: others[i],
                        content: Content::DeleteFileRequest { key: song_clone.clone() },
                    },
                );
                i = i + 1;
            }
        } else if instr == FileInstructions::Get {
            let file: Option<Vec<u8>> = match peer.find_file(song_name.as_str()) {
                Some(f) => Some(clone_bytes(f)),
                None => None,
            };
            match file {
                Some(file) => {
                    r.push(Action::SaveToDisk { key: song_name, value: file });
                },
                None => {},
            }
        }
    } else {
        peer.add_new_request(id, instr);
        let ghost base = r@.len();
        broadcast_exist_queries(&mut r, &others, &song_name, id);
        proof {
            assert forall|j: int|
                0 <= j < others@.len() implies is_exist_query(
                #[trigger] r@[j],
                others@[j],
                song_name@,
                id,
            ) by {
                assert(is_exist_query(r@[base + j], others@[j], song_name@, id));
            }
        }
    }
    r
}

/// Merges received membership entries into the table and re-broadcasts
/// the merged table to every peer now known, except this node itself.
pub fn send_network_table(entries: Vec<(String, Addr)>, peer: &mut Peer) -> (r: Vec<Action>)
    requires
        old(peer).wf(),
    ensures
        final(peer).wf(),
        final(peer).network_table@ == old(peer).network_table@.union_prefer_right(
            assoc_map(entries@),
        ),
        unchanged_but_network(old(peer), final(peer)),
        r@.len() == addrs_except_name(final(peer).network_table.entries@, old(peer).name@).len(),
        forall|j: int|
            0 <= j < r@.len() ==> (#[trigger] r@[j] matches Action::Send {
                to,
                content: Content::SendNetworkUpdateTable { entries: e },
            } && to == addrs_except_name(final(peer).network_table.entries@, old(peer).name@)[j]
                && e@ == final(peer).network_table.entries@),
{
    peer.network_table.merge_from(&entries);
    let ghost merged = *peer;
    let others = collect_addrs_except_name(&peer.network_table.entries, &peer.name);
    let n = others.len();
    let mut r: Vec<Action> = Vec::new();
    let mut i: usize = 0;
    while i < n
        invariant
            i <= n,
            n == others@.len(),
            others@ == addrs_except_name(peer.network_table.entries@, peer.name@),
            *peer == merged,
            r@.len() == i,
            forall|j: int|
                0 <= j < i ==> (#[trigger] r@[j] matches Action::Send {
                    to,
                    content: Content::SendNetworkUpdateTable { entries: e },
                } && to == others@[j] && e@ == peer.network_table.entries@),
        decreases n - i,
    {
        let snapshot = clone_entries(&peer.network_table.entries);
        r.push(
            Action::Send {
                to: others[i],
                content: Content::SendNetworkUpdateTable { entries: snapshot },
            },
        );
        i = i + 1;
    }
    r
}

/// Merges received membership entries into the table without any
/// re-broadcast.
pub fn send_network_update_table(entries: Vec<(String, Addr)>, peer: &mut Peer)
    requires
        old(peer).wf(),
    ensures
        final(peer).wf(),
        final(peer).network_table@ == old(peer).network_table@.union_prefer_right(
            assoc_map(entries@),
        ),
        unchanged_but_network(old(peer), final(peer)),
{
    peer.network_table.merge_from(&entries);
}

/// Takes over, or passes on, an ordered item: a node that already holds
/// the item forwards the order to a random other peer, one that does not
/// starts fetching it from the network under the fresh request id `id`.
pub fn order_song_request(song_name: String, peer: &mut Peer, id: u64) -> (r: Vec<Action>)
    requires
        old(peer).wf(),
    ensures
        final(peer).wf(),
        old(peer).database.data@.contains_key(song_name@) ==> {
            &&& *final(peer) == *old(peer)
            &&& r@.len() <= 1
            &&& (r@.len() == 1 ==> is_order_to_other(
                r@[0],
                old(peer).network_table.entries@,
                old(peer).ip_address,
                song_name@,
            ))
            &&& (old(peer).network_table.entries@.len() != 1 && has_other_addr(
                old(peer).network_table.entries@,
                old(peer).ip_address,
            ) ==> r@.len() == 1)
        },
        !old(peer).database.data@.contains_key(song_name@) ==> {
            &&& final(peer).open_request_table@ == old(peer).open_request_table@.insert(
                id,
                FileInstructions::Order,
            )
            &&& unchanged_but_requests(old(peer), final(peer))
            &&& r@.len() == addrs_except_name(
                old(peer).network_table.entries@,
                old(peer).name@,
            ).len()
            &&& forall|j: int|
                0 <= j < r@.len() ==> is_exist_query(
                    #[trigger] r@[j],
                    addrs_except_name(old(peer).network_table.entries@, old(peer).name@)[j],
                    song_name@,
                    id,
                )
        },
{
    let mut r: Vec<Action> = Vec::new();
    if peer.does_file_exist(song_name.as_str()) {
        let own_ip = peer.ip_address;
        match other_random_target(&peer.network_table, &own_ip) {
            Some(target) => {
                r.push(
                    Action::Send { to: target, content: Content::OrderSongRequest { key: song_name } },
                );
            },
            None => {},
        }
    } else {
        let others = collect_addrs_except_name(&peer.network_table.entries, &peer.name);
        peer.add_new_request(id, FileInstructions::Order);
        let ghost base = r@.len();
        broadcast_exist_queries(&mut r, &others, &song_name, id);
        proof {
            assert forall|j: int|
                0 <= j < others@.len() implies is_exist_query(
                #[trigger] r@[j],
                others@[j],
                song_name@,
                id,
            ) by {
                assert(is_exist_query(r@[base + j], others@[j], song_name@, id));
            }
        }
    }
    r
}

/// Leaves the network: tells every other peer to forget this node,
/// best-effort orders every stored item to a new holder, and asks the
/// surroundings to terminate the process.
pub fn exit_peer(addr: Addr, peer: &mut Peer) -> (r: Vec<Action>)
    requires
        old(peer).wf(),
    ensures
        final(peer).wf(),
        *final(peer) == *old(peer),
        r@.len() >= 1,
        r@[r@.len() - 1] == Action::Terminate,
        old(peer).network_table.entries@.len() <= 1 ==> r@ =~= seq![Action::Terminate],
        old(peer).network_table.entries@.len() > 1 ==> {
            let others = addrs_except_addr(old(peer).network_table.entries@, addr);
            let songs = old(peer).database.data.entries@;
            &&& r@.len() >= others.len() + 1
            &&& forall|j: int|
                0 <= j < others.len() ==> (#[trigger] r@[j] matches Action::Send {
                    to,
                    content: Content::DeleteFromNetwork { name },
                } && to == others[j] && name@ == old(peer).name@)
            &&& (has_other_addr(old(peer).network_table.entries@, old(peer).ip_address)
                ==> r@.len() == others.len() + songs.len() + 1 && forall|j: int|
                0 <= j < songs.len() ==> is_order_to_other(
                    #[trigger] r@[others.len() + j],
                    old(peer).network_table.entries@,
                    old(peer).ip_address,
                    songs[j].0@,
                ))
            &&& (!has_other_addr(old(peer).network_table.entries@, old(peer).ip_address)
                ==> r@.len() == others.len() + 1)
        },
{
    let mut r: Vec<Action> = Vec::new();
    if peer.network_table.len() > 1 {
        let others = collect_addrs_except_addr(&peer.network_table.entries, &addr);
        let n = others.len();
        let mut i: usize = 0;
        while i < n
            invariant
                i <= n,
                n == others@.len(),
                r@.len() == i,
                *peer == *old(peer),
                forall|j: int|
                    0 <= j < i ==> (#[trigger] r@[j] matches Action::Send {
                        to,
                        content: Content::DeleteFromNetwork { name },
                    } && to == others@[j] && name@ == old(peer).name@),
            decreases n - i,
        {
            r.push(
                Action::Send {
                    to: others[i],
                    content: Content::DeleteFromNetwork { name: peer.name.clone() },
                },
            );
            i = i + 1;
        }
        let songs = peer.get_db().get_data().keys();
        proof {
            assert forall|q: int| 0 <= q < songs@.len() implies (#[trigger] songs@[q])@ == old(
                peer,
            ).database.data.entries@[q].0@ by {
                assert(songs@[q].key_view() == peer.database.data.entries@[q].0.key_view());
            }
        }
        let ghost entries = peer.network_table.entries@;
        let ghost own = peer.ip_address;
        let ghost ex = has_other_addr(entries, own);
        let m = songs.len();
        let mut j: usize = 0;
        while j < m
            invariant
                j <= m,
                m == songs@.len(),
                *peer == *old(peer),
                entries == peer.network_table.entries@,
                own == peer.ip_address,
                ex == has_other_addr(entries, own),
                entries.len() > 1,
                songs@.len() == old(peer).database.data.entries@.len(),
                forall|q: int|
                    0 <= q < songs@.len() ==> (#[trigger] songs@[q])@ == old(
                        peer,
                    ).database.data.entries@[q].0@,
                r@.len() == n + if ex {
                    j as int
                } else {
                    0
                },
                forall|q: int|
                    0 <= q < n ==> (#[trigger] r@[q] matches Action::Send {
                        to,
                        content: Content::DeleteFromNetwork { name },
                    } && to == addrs_except_addr(old(peer).network_table.entries@, addr)[q] && name@
                        == old(peer).name@),
                n == addrs_except_addr(old(peer).network_table.entries@, addr).len(),
                forall|q: int|
                    0 <= q < r@.len() - n ==> is_order_to_other(
                        #[trigger] r@[n + q],
                        entries,
                        own,
                        old(peer).database.data.entries@[q].0@,
                    ),
            decreases m - j,
        {
            let own_ip = peer.ip_address;
            match other_random_target(&peer.network_table, &own_ip) {
                Some(target) => {
                    proof {
                        let t = target;
                        assert(has_addr(entries, t) && t != own);
                        assert(ex) by {
                            let i0 = choose|i0: int|
                                0 <= i0 < entries.len() && (#[trigger] entries[i0]).1 == t;
                            assert(entries[i0].1 != own);
                        }
                    }
                    r.push(
                        Action::Send {
                            to: target,
                            content: Content::OrderSongRequest { key: songs[j].clone() },
                        },
                    );
                },
                None => {
                    proof {
                        if ex {
                            assert(false);
                        }
                    }
                },
            }
            j = j + 1;
        }
        proof {
            assert(songs@.len() == old(peer).database.data.entries@.len());
        }
    }
    r.push(Action::Terminate);
    r
}

/// The item names recorded under a lost peer that this node still holds:
/// the items redistribution must push to a new holder.
pub open spec fn present_songs(songs: Seq<String>, db: Map<Seq<char>, Vec<u8>>) -> Seq<Seq<char>>
    decreases songs.len(),
{
    if songs.len() == 0 {
        Seq::empty()
    } else {
        let rest = present_songs(songs.drop_last(), db);
        if db.contains_key(songs.last()@) {
            rest.push(songs.last()@)
        } else {
            rest
        }
    }
}

/// Re-replicates after a peer loss: every item this node had recorded at
/// the lost address and still holds is pushed to a new random target, and
/// the ledger entry for the lost address is cleared, so that the ledger
/// never keeps a record pointing at a lost peer.
pub fn redistribute_files(addr: Addr, peer: &mut Peer) -> (r: Vec<Action>)
    requires
        old(peer).wf(),
    ensures
        final(peer).wf(),
        final(peer).redundancy_table@ == old(peer).redundancy_table@.remove(addr),
        unchanged_but_redundancy(old(peer), final(peer)),
        !old(peer).redundancy_table@.contains_key(addr) ==> r@ =~= Seq::<Action>::empty(),
        old(peer).redundancy_table@.contains_key(addr) ==> {
            let songs = present_songs(
                old(peer).redundancy_table@[addr]@,
                old(peer).database.data@,
            );
            &&& (old(peer).network_table.entries@.len() != 1 && has_other_addr(
                old(peer).network_table.entries@,
                old(peer).ip_address,
            ) ==> {
                &&& r@.len() == songs.len()
                &&& forall|j: int|
                    0 <= j < r@.len() ==> is_redundant_push_to_other(
                        #[trigger] r@[j],
                        old(peer).network_table.entries@,
                        old(peer).ip_address,
                        songs[j],
                        old(peer).database.data@[songs[j]]@,
                    )
            })
            &&& (old(peer).network_table.entries@.len() == 1 || !has_other_addr(
                old(peer).network_table.entries@,
                old(peer).ip_address,
            ) ==> r@ =~= Seq::<Action>::empty())
        },
{
    let mut r: Vec<Action> = Vec::new();
    let songs: Option<Vec<String>> = match peer.redundancy_table.get(&addr) {
        Some(v) => Some(clone_strings(v)),
        None => None,
    };
    match songs {
        None => {
            proof {
                crate::assoc::lemma_assoc_map_dom(peer.redundancy_table.entries@);
                crate::assoc::lemma_assoc_map_remove_absent::<Addr, Vec<String>>(
                    peer.redundancy_table.entries@,
                    addr,
                );
            }
        },
        Some(songs) => {
            let ghost entries = peer.network_table.entries@;
            let ghost own = peer.ip_address;
            let ghost ex = entries.len() != 1 && has_other_addr(entries, own);
            let ghost db = peer.database.data@;
            let m = songs.len();
            let mut j: usize = 0;
            proof {
                assert(present_songs(songs@.take(0), db) =~= Seq::<Seq<char>>::empty());
            }
            while j < m
                invariant
                    j <= m,
                    m == songs@.len(),
                    *peer == *old(peer),
                    entries == peer.network_table.entries@,
                    own == peer.ip_address,
                    db == peer.database.data@,
                    peer.wf(),
                    ex == (entries.len() != 1 && has_other_addr(entries, own)),
                    ex ==> r@.len() == present_songs(songs@.take(j as int), db).len() && forall|
                        q: int,
                    |
                        0 <= q < r@.len() ==> is_redundant_push_to_other(
                            #[trigger] r@[q],
                            entries,
                            own,
                            present_songs(songs@.take(j as int), db)[q],
                            db[present_songs(songs@.take(j as int), db)[q]]@,
                        ),
                    !ex ==> r@ =~= Seq::<Action>::empty(),
                decreases m - j,
            {
                proof {
                    assert(songs@.take(j + 1).drop_last() =~= songs@.take(j as int));
                    assert(songs@.take(j + 1).last() == songs@[j as int]);
                }
                let file: Option<Vec<u8>> = match peer.find_file(songs[j].as_str()) {
                    Some(f) => Some(clone_bytes(f)),
                    None => None,
                };
                match file {
                    Some(file) => {
                        let own_ip = peer.ip_address;
                        match other_random_target(&peer.network_table, &own_ip) {
                            Some(target) => {
                                proof {
                                    assert(has_addr(entries, target) && target != own);
                                    assert(entries.len() != 1);
                                    assert(ex) by {
                                        let i0 = choose|i0: int|
                                            0 <= i0 < entries.len() && (#[trigger] entries[i0]).1
                                                == target;
                                        assert(entries[i0].1 != own);
                                    }
                                }
                                r.push(
                                    Action::Send {
                                        to: target,
                                        content: Content::RedundantPushToDB {
                                            key: songs[j].clone(),
                                            value: file,
                                            from: own_ip,
                                        },
                                    },
                                );
                            },
                            None => {
                                proof {
                                    if ex {
                                        assert(false);
                                    }
                                }
                            },
                        }
                    },
                    None => {},
                }
                j = j + 1;
            }
            proof {
                assert(songs@.take(m as int) =~= songs@);
            }
            peer.redundancy_table.remove(&addr);
        },
    }
    r
}

/// Handles a dropped-peer notice: the lost address leaves the membership
/// table and everything recorded there is redistributed among the
/// remaining peers.
pub fn dropped_peer(addr: Addr, peer: &mut Peer) -> (r: Vec<Action>)
    requires
        old(peer).wf(),
    ensures
        final(peer).wf(),
        final(peer).network_table@ == drop_addr(old(peer).network_table@, addr),
        final(peer).redundancy_table@ == old(peer).redundancy_table@.remove(addr),
        final(peer).name == old(peer).name,
        final(peer).ip_address == old(peer).ip_address,
        final(peer).database == old(peer).database,
        final(peer).open_request_table == old(peer).open_request_table,
        !old(peer).redundancy_table@.contains_key(addr) ==> r@ =~= Seq::<Action>::empty(),
        old(peer).redundancy_table@.contains_key(addr) ==> {
            let songs = present_songs(
                old(peer).redundancy_table@[addr]@,
                old(peer).database.data@,
            );
            let remaining = final(peer).network_table.entries@;
            &&& (remaining.len() != 1 && has_other_addr(remaining, old(peer).ip_address) ==> {
                &&& r@.len() == songs.len()
                &&& forall|j: int|
                    0 <= j < r@.len() ==> is_redundant_push_to_other(
                        #[trigger] r@[j],
                        remaining,
                        old(peer).ip_address,
                        songs[j],
                        old(peer).database.data@[songs[j]]@,
                    )
            })
            &&& (remaining.len() == 1 || !has_other_addr(remaining, old(peer).ip_address) ==> r@
                =~= Seq::<Action>::empty())
        },
{
    peer.drop_peer_by_ip(&addr);
    redistribute_files(addr, peer)
}

/// Treats a failed connection to `addr` as a peer loss: the address
/// leaves the membership table, every remaining peer but this node is
/// told so, and the lost peer's recorded items are redistributed.
pub fn handle_lost_connection(addr: Addr, peer: &mut Peer) -> (r: Vec<Action>)
    requires
        old(peer).wf(),
    ensures
        final(peer).wf(),
        final(peer).network_table@ == drop_addr(old(peer).network_table@, addr),
        final(peer).redundancy_table@ == old(peer).redundancy_table@.remove(addr),
        final(peer).name == old(peer).name,
        final(peer).ip_address == old(peer).ip_address,
        final(peer).database == old(peer).database,
        final(peer).open_request_table == old(peer).open_request_table,
        r@.len() >= addrs_except_addr(
            final(peer).network_table.entries@,
            old(peer).ip_address,
        ).len(),
        forall|j: int|
            0 <= j < addrs_except_addr(
                final(peer).network_table.entries@,
                old(peer).ip_address,
            ).len() ==> (#[trigger] r@[j] matches Action::Send {
                to,
                content: Content::DroppedPeer { addr: a },
            } && to == addrs_except_addr(final(peer).network_table.entries@, old(peer).ip_address)[j]
                && a == addr),
        !old(peer).redundancy_table@.contains_key(addr) ==> r@.len() == addrs_except_addr(
            final(peer).network_table.entries@,
            old(peer).ip_address,
        ).len(),
        old(peer).redundancy_table@.contains_key(addr) ==> {
            let notices = addrs_except_addr(
                final(peer).network_table.entries@,
                old(peer).ip_address,
            ).len();
            let songs = present_songs(
                old(peer).redundancy_table@[addr]@,
                old(peer).database.data@,
            );
            let remaining = final(peer).network_table.entries@;
            &&& (remaining.len() != 1 && has_other_addr(remaining, old(peer).ip_address) ==> {
                &&& r@.len() == notices + songs.len()
                &&& forall|j: int|
                    0 <= j < songs.len() ==> is_redundant_push_to_other(
                        #[trigger] r@[notices + j],
                        remaining,
                        old(peer).ip_address,
                        songs[j],
                        old(peer).database.data@[songs[j]]@,
                    )
            })
            &&& (remaining.len() == 1 || !has_other_addr(remaining, old(peer).ip_address)
                ==> r@.len() == notices)
        },
{
    peer.drop_peer_by_ip(&addr);
    let others = collect_addrs_except_addr(&peer.network_table.entries, &peer.ip_address);
    let n = others.len();
    let mut r: Vec<Action> = Vec::new();
    let mut i: usize = 0;
    while i < n
        invariant
            i <= n,
            n == others@.len(),
            r@.len() == i,
            forall|j: int|
                0 <= j < i ==> (#[trigger] r@[j] matches Action::Send {
                    to,
                    content: Content::DroppedPeer { addr: a },
                } && to == others@[j] && a == addr),
        decreases n - i,
    {
        r.push(Action::Send { to: others[i], content: Content::DroppedPeer { addr } });
        i = i + 1;
    }
    let mut pushes = redistribute_files(addr, peer);
    r.append(&mut pushes);
    r
}

/// Fans a status request out to every known peer.
pub fn self_status_request(peer: &mut Peer) -> (r: Vec<Action>)
    requires
        old(peer).wf(),
    ensures
        final(peer).wf(),
        *final(peer) == *old(peer),
        r@.len() == old(peer).network_table.entries@.len(),
        forall|j: int|
            0 <= j < r@.len() ==> (#[trigger] r@[j] matches Action::Send {
                to,
                content: Content::StatusRequest,
            } && to == old(peer).network_table.entries@[j].1),
{
    let n = peer.network_table.entries.len();
    let mut r: Vec<Action> = Vec::new();
    let mut i: usize = 0;
    while i < n
        invariant
            i <= n,
            n == peer.network_table.entries@.len(),
            r@.len() == i,
            forall|j: int|
                0 <= j < i ==> (#[trigger] r@[j] matches Action::Send {
                    to,
                    content: Content::StatusRequest,
                } && to == peer.network_table.entries@[j].1),
        decreases n - i,
    {
        let addr = peer.network_table.entries[i].1;
        r.push(Action::Send { to: addr, content: Content::StatusRequest });
        i = i + 1;
    }
    r
}

} // verus!
