use crate::addr::Addr;
use crate::message::{Action, Content, FileInstructions, FileStatus, Message, Notification};
use crate::peer::{clone_bytes, drop_addr, entry_addrs, has_addr, Peer};
use crate::request::{
    addrs_except_name, broadcast_exist_queries, change_peer_name, delete_file_request,
    delete_from_network, dropped_peer, exist_file, exist_file_response, exit_peer, get_file,
    get_file_response, has_other_addr, is_exist_query, is_redundant_push_to_other,
    ledger_after_record, order_song_request, other_random_target, request_for_table,
    self_status_request, send_network_table, send_network_update_table, status_request,
};
use vstd::prelude::*;

verus! {

/// Executes the one state transition that an inbound message calls for
/// and returns the messages and effects it emits, exactly as the protocol
/// table prescribes for each content kind.  `now` serves as the fresh
/// request id where a transition opens a new existence query.
pub fn handle_notification(notification: Notification, peer: &mut Peer, now: u64) -> (r: Vec<
    Action,
>)
    requires
        old(peer).wf(),
    ensures
        final(peer).wf(),
        final(peer).ip_address == old(peer).ip_address,
        (notification.content matches Content::PushToDB { key, value, from } ==> {
            &&& final(peer).database.data@ == old(peer).database.data@.insert(key@, value)
            &&& final(peer).name == old(peer).name
            &&& final(peer).network_table == old(peer).network_table
            &&& final(peer).open_request_table == old(peer).open_request_table
            &&& final(peer).redundancy_table == old(peer).redundancy_table
            &&& 1 <= r@.len() <= 2
            &&& (r@[r@.len() - 1] matches Action::Send {
                to,
                content: Content::Response { message: Message::DataStored { key: k } },
            } && to == from && k@ == key@)
            &&& (old(peer).network_table.entries@.len() != 1 && has_other_addr(
                old(peer).network_table.entries@,
                old(peer).ip_address,
            ) ==> r@.len() == 2 && is_redundant_push_to_other(
                r@[0],
                old(peer).network_table.entries@,
                old(peer).ip_address,
                key@,
                value@,
            ))
        }),
        (notification.content matches Content::RedundantPushToDB { key, value, from } ==> {
            &&& final(peer).database.data@ == old(peer).database.data@.insert(key@, value)
            &&& ledger_after_record(
                old(peer).redundancy_table@,
                final(peer).redundancy_table@,
                from,
                key,
            )
            &&& final(peer).name == old(peer).name
            &&& final(peer).network_table == old(peer).network_table
            &&& final(peer).open_request_table == old(peer).open_request_table
            &&& r@.len() == 1 && r@[0] == (Action::DatabaseChanged {
                key,
                status: FileStatus::New,
            })
        }),
        (notification.content matches Content::ChangePeerName { value } ==> {
            &&& final(peer).name == value
            &&& final(peer).network_table@ == old(peer).network_table@.remove(
                old(peer).name@,
            ).insert(value@, old(peer).ip_address)
            &&& final(peer).database == old(peer).database
            &&& final(peer).open_request_table == old(peer).open_request_table
            &&& final(peer).redundancy_table == old(peer).redundancy_table
            &&& r@.len() == 1 && (r@[0] matches Action::Send {
                to,
                content: Content::RequestForTable { value: v },
            } && to == notification.from && v@ == value@)
        }),
        (notification.content matches Content::SendNetworkTable { entries } ==> {
            &&& final(peer).network_table@ == old(peer).network_table@.union_prefer_right(
                crate::assoc::assoc_map(entries@),
            )
            &&& crate::peer::unchanged_but_network(old(peer), final(peer))
            &&& r@.len() == addrs_except_name(
                final(peer).network_table.entries@,
                old(peer).name@,
            ).len()
            &&& forall|j: int|
                0 <= j < r@.len() ==> (#[trigger] r@[j] matches Action::Send {
                    to,
                    content: Content::SendNetworkUpdateTable { entries: e },
                } && to == addrs_except_name(
                    final(peer).network_table.entries@,
                    old(peer).name@,
                )[j] && e@ == final(peer).network_table.entries@)
        }),
        (notification.content matches Content::SendNetworkUpdateTable { entries } ==> {
            &&& final(peer).network_table@ == old(peer).network_table@.union_prefer_right(
                crate::assoc::assoc_map(entries@),
            )
            &&& crate::peer::unchanged_but_network(old(peer), final(peer))
            &&& r@ =~= Seq::<Action>::empty()
        }),
        (notification.content matches Content::RequestForTable { value } ==> {
            &&& *final(peer) == *old(peer)
            &&& r@.len() == 1
            &&& (old(peer).network_table@.contains_key(value@) ==> (r@[0] matches Action::Send {
                to,
                content: Content::ChangePeerName { value: v },
            } && to == notification.from && v@ == value@ + "+1"@))
            &&& (!old(peer).network_table@.contains_key(value@) ==> (r@[0] matches Action::Send {
                to,
                content: Content::SendNetworkTable { entries },
            } && to == notification.from && entries@ == old(peer).network_table.entries@))
        }),
        (notification.content matches Content::FindFile { key } ==> {
            &&& final(peer).open_request_table@ == old(peer).open_request_table@.insert(
                now,
                FileInstructions::Get,
            )
            &&& crate::peer::unchanged_but_requests(old(peer), final(peer))
            &&& r@.len() == addrs_except_name(
                old(peer).network_table.entries@,
                old(peer).name@,
            ).len()
            &&& forall|j: int|
                0 <= j < r@.len() ==> is_exist_query(
                    #[trigger] r@[j],
                    addrs_except_name(old(peer).network_table.entries@, old(peer).name@)[j],
                    key@,
                    now,
                )
        }),
        (notification.content matches Content::ExistFile { key, id } ==> {
            &&& *final(peer) == *old(peer)
            &&& (old(peer).database.data@.contains_key(key@) ==> r@.len() == 1 && (r@[0] matches
                Action::Send {
                to,
                content: Content::ExistFileResponse { key: k, id: i },
            } && to == notification.from && k@ == key@ && i == id))
            &&& (!old(peer).database.data@.contains_key(key@) ==> r@ =~= Seq::<Action>::empty())
        }),
        (notification.content matches Content::ExistFileResponse { key, id } ==> {
            &&& (!old(peer).open_request_table@.contains_key(id) ==> *final(peer) == *old(peer)
                && r@ =~= Seq::<Action>::empty())
            &&& (old(peer).open_request_table@.contains_key(id) ==> {
                &&& final(peer).open_request_table@ == old(peer).open_request_table@.remove(id)
                &&& crate::peer::unchanged_but_requests(old(peer), final(peer))
                &&& r@.len() == 1
                &&& (r@[0] matches Action::Send {
                    to,
                    content: Content::GetFile { key: k, instr },
                } && to == notification.from && k@ == key@ && instr == old(
                    peer,
                ).open_request_table@[id])
            })
        }),
        (notification.content matches Content::GetFile { key, instr } ==> {
            &&& *final(peer) == *old(peer)
            &&& (old(peer).database.data@.contains_key(key@) ==> r@.len() == 1 && (r@[0] matches
                Action::Send {
                to,
                content: Content::GetFileResponse { key: k, value, instr: i },
            } && to == notification.from && k@ == key@ && value@ == old(
                peer,
            ).database.data@[key@]@ && i == instr))
            &&& (!old(peer).database.data@.contains_key(key@) ==> r@ =~= Seq::<Action>::empty())
        }),
        (notification.content matches Content::GetFileResponse { key, value, instr } ==> {
            &&& (instr == FileInstructions::Play ==> *final(peer) == *old(peer) && r@.len() == 1
                && (r@[0] matches Action::Play { key: k, value: v } && k@ == key@ && v@ == value@))
            &&& (instr == FileInstructions::Get ==> *final(peer) == *old(peer) && r@.len() == 1
                && (r@[0] matches Action::SaveToDisk { key: k, value: v } && k@ == key@ && v@
                == value@))
            &&& (instr == FileInstructions::Order ==> final(peer).database.data@ == old(
                peer,
            ).database.data@.insert(key@, value) && crate::peer::unchanged_but_database(
                old(peer),
                final(peer),
            ) && r@ =~= Seq::<Action>::empty())
            &&& (instr == FileInstructions::Remove ==> *final(peer) == *old(peer) && r@
                =~= Seq::<Action>::empty())
        }),
        (notification.content matches Content::Response { message } ==> *final(peer) == *old(peer)
            && r@ =~= Seq::<Action>::empty()),
        (notification.content matches Content::ExitPeer { addr } ==> {
            &&& *final(peer) == *old(peer)
            &&& r@.len() >= 1
            &&& r@[r@.len() - 1] == Action::Terminate
            &&& (old(peer).network_table.entries@.len() <= 1 ==> r@ =~= seq![Action::Terminate])
        }),
        (notification.content matches Content::DeleteFromNetwork { name } ==> {
            &&& final(peer).network_table@ == old(peer).network_table@.remove(name@)
            &&& crate::peer::unchanged_but_network(old(peer), final(peer))
            &&& r@ =~= Seq::<Action>::empty()
        }),
        (notification.content matches Content::SelfStatusRequest ==> {
            &&& *final(peer) == *old(peer)
            &&& r@.len() == old(peer).network_table.entries@.len()
            &&& forall|j: int|
                0 <= j < r@.len() ==> (#[trigger] r@[j] matches Action::Send {
                    to,
                    content: Content::StatusRequest,
                } && to == old(peer).network_table.entries@[j].1)
        }),
        (notification.content matches Content::StatusRequest ==> {
            &&& *final(peer) == *old(peer)
            &&& r@.len() == 1
            &&& (r@[0] matches Action::Send {
                to,
                content: Content::StatusResponse { files, name },
            } && to == notification.from && name@ == old(peer).name@ && files@.len() == old(
                peer,
            ).database.data.entries@.len() && forall|j: int|
                0 <= j < files@.len() ==> (#[trigger] files@[j])@ == old(
                    peer,
                ).database.data.entries@[j].0@)
        }),
        (notification.content matches Content::StatusResponse { files, name } ==> {
            &&& *final(peer) == *old(peer)
            &&& r@.len() == 1 && r@[0] == (Action::ShowRemoteFiles { files, name })
        }),
        (notification.content matches Content::PlayAudioRequest { name } ==> {
            &&& *final(peer) == *old(peer)
            &&& (old(peer).database.data@.contains_key(name@) ==> r@.len() == 1 && (r@[0] matches
                Action::Play { key: k, value: v } && k@ == name@ && v@ == old(
                peer,
            ).database.data@[name@]@))
            &&& (!old(peer).database.data@.contains_key(name@) ==> r@ =~= Seq::<Action>::empty())
        }),
        (notification.content matches Content::DroppedPeer { addr } ==> {
            &&& final(peer).network_table@ == drop_addr(old(peer).network_table@, addr)
            &&& final(peer).redundancy_table@ == old(peer).redundancy_table@.remove(addr)
            &&& final(peer).name == old(peer).name
            &&& final(peer).database == old(peer).database
            &&& final(peer).open_request_table == old(peer).open_request_table
            &&& (!old(peer).redundancy_table@.contains_key(addr) ==> r@
                =~= Seq::<Action>::empty())
            &&& (old(peer).redundancy_table@.contains_key(addr) ==> {
                let songs = crate::request::present_songs(
                    old(peer).redundancy_table@[addr]@,
                    old(peer).database.data@,
                );
                let remaining = final(peer).network_table.entries@;
                &&& (remaining.len() != 1 && has_other_addr(remaining, old(peer).ip_address)
                    ==> r@.len() == songs.len() && forall|j: int|
                    0 <= j < r@.len() ==> is_redundant_push_to_other(
                        #[trigger] r@[j],
                        remaining,
                        old(peer).ip_address,
                        songs[j],
                        old(peer).database.data@[songs[j]]@,
                    ))
                &&& (remaining.len() == 1 || !has_other_addr(remaining, old(peer).ip_address)
                    ==> r@ =~= Seq::<Action>::empty())
            })
        }),
        (notification.content matches Content::OrderSongRequest { key } ==> {
            &&& (old(peer).database.data@.contains_key(key@) ==> {
                &&& *final(peer) == *old(peer)
                &&& r@.len() <= 1
                &&& (r@.len() == 1 ==> crate::request::is_order_to_other(
                    r@[0],
                    old(peer).network_table.entries@,
                    old(peer).ip_address,
                    key@,
                ))
                &&& (old(peer).network_table.entries@.len() != 1 && has_other_addr(
                    old(peer).network_table.entries@,
                    old(peer).ip_address,
                ) ==> r@.len() == 1)
            })
            &&& (!old(peer).database.data@.contains_key(key@)
                ==> final(peer).open_request_table@ == old(peer).open_request_table@.insert(
                now,
                FileInstructions::Order,
            ) && crate::peer::unchanged_but_requests(old(peer), final(peer)) && forall|j: int|
                0 <= j < r@.len() ==> is_exist_query(
                    #[trigger] r@[j],
                    addrs_except_name(old(peer).network_table.entries@, old(peer).name@)[j],
                    key@,
                    now,
                ))
        }),
        (notification.content matches Content::DeleteFileRequest { key } ==> {
            &&& final(peer).database.data@ == old(peer).database.data@.remove(key@)
            &&& crate::peer::unchanged_but_database(old(peer), final(peer))
            &&& r@ =~= Seq::<Action>::empty()
        }),
{
    let sender = notification.from;
    match notification.content {
        Content::PushToDB { key, value, from } => {
            let ack_key = key.clone();
            let push_key = key.clone();
            let push_bytes = clone_bytes(&value);
            peer.process_store_request((key, value));
            let own_ip = peer.ip_address;
            let mut r: Vec<Action> = Vec::new();
            match other_random_target(&peer.network_table, &own_ip) {
                Some(target) => {
                    r.push(
                        Action::Send {
                            to: target,
                            content: Content::RedundantPushToDB {
                                key: push_key,
                                value: push_bytes,
                                from: own_ip,
                            },
                        },
                    );
                },
                None => {},
            }
            r.push(
                Action::Send {
                    to: from,
                    content: Content::Response { message: Message::DataStored { key: ack_key } },
                },
            );
            r
        },
        Content::RedundantPushToDB { key, value, from } => {
            crate::request::redundant_push_to_db(key, value, peer, from)
        },
        Content::ChangePeerName { value } => change_peer_name(value, sender, peer),
        Content::SendNetworkTable { entries } => send_network_table(entries, peer),
        Content::SendNetworkUpdateTable { entries } => {
            send_network_update_table(entries, peer);
            Vec::new()
        },
        Content::RequestForTable { value } => request_for_table(value, sender, peer),
        Content::FindFile { key } => {
            let others = crate::request::collect_addrs_except_name(
                &peer.network_table.entries,
                &peer.name,
            );
            peer.add_new_request(now, FileInstructions::Get);
            let mut r: Vec<Action> = Vec::new();
            broadcast_exist_queries(&mut r, &others, &key, now);
            proof {
                assert forall|j: int|
                    0 <= j < others@.len() implies is_exist_query(
                    #[trigger] r@[j],
                    others@[j],
                    key@,
                    now,
                ) by {
                    assert(is_exist_query(r@[0 + j], others@[j], key@, now));
                }
            }
            r
        },
        Content::ExistFile { key, id } => exist_file(key, id, sender, peer),
        Content::ExistFileResponse { key, id } => exist_file_response(key, id, sender, peer),
        Content::GetFile { key, instr } => get_file(instr, key, sender, peer),
        Content::GetFileResponse { key, value, instr } => {
            match get_file_response(&instr, key.as_str(), value, peer) {
                Ok(acts) => acts,
                Err(_e) => Vec::new(),
            }
        },
        Content::Response { message: _ } => Vec::new(),
        Content::ExitPeer { addr } => exit_peer(addr, peer),
        Content::DeleteFromNetwork { name } => {
            delete_from_network(name, peer);
            Vec::new()
        },
        Content::SelfStatusRequest => self_status_request(peer),
        Content::StatusRequest => status_request(sender, peer),
        Content::StatusResponse { files, name } => {
            let mut r: Vec<Action> = Vec::new();
            r.push(Action::ShowRemoteFiles { files, name });
            r
        },
        Content::PlayAudioRequest { name } => {
            let bytes: Option<Vec<u8>> = match peer.find_file(name.as_str()) {
                Some(b) => Some(clone_bytes(b)),
                None => None,
            };
            let mut r: Vec<Action> = Vec::new();
            match bytes {
                Some(bytes) => {
                    r.push(Action::Play { key: name, value: bytes });
                },
                None => {},
            }
            r
        },
        Content::DroppedPeer { addr } => dropped_peer(addr, peer),
        Content::OrderSongRequest { key } => order_song_request(key, peer, now),
        Content::DeleteFileRequest { key } => {
            delete_file_request(key.as_str(), peer);
            Vec::new()
        },
    }
}

/// The peers the failure monitor probes on one tick: nobody when the node
/// is alone, every known address while the network is small, and only the
/// three port-order successors once it has at least four members, to
/// bound the per-tick cost.
pub fn heartbeat_targets(peer: &mut Peer) -> (r: Vec<Addr>)
    requires
        old(peer).wf(),
    ensures
        *final(peer) == *old(peer),
        old(peer).network_table.entries@.len() == 1 ==> r@ =~= Seq::<Addr>::empty(),
        old(peer).network_table.entries@.len() != 1 && old(peer).network_table.entries@.len() < 4
            ==> r@ == entry_addrs(old(peer).network_table.entries@),
        old(peer).network_table.entries@.len() >= 4 ==> r@.len() == 3 && r@
            == crate::peer::cyclic_successors(
            crate::peer::sorted_addrs(entry_addrs(old(peer).network_table.entries@)),
            crate::peer::own_position(
                crate::peer::sorted_addrs(entry_addrs(old(peer).network_table.entries@)),
                old(peer).ip_address,
            ),
            1,
        ) && forall|i: int|
            0 <= i < r@.len() ==> has_addr(old(peer).network_table.entries@, #[trigger] r@[i]),
{
    let n = peer.network_table.len();
    if n == 1 {
        Vec::new()
    } else if n < 4 {
        let ghost s = peer.network_table.entries@;
        let mut r: Vec<Addr> = Vec::new();
        let mut i: usize = 0;
        proof {
            assert(r@ =~= entry_addrs(s).take(0));
        }
        while i < n
            invariant
                i <= n,
                n == s.len(),
                s == peer.network_table.entries@,
                r@ == entry_addrs(s).take(i as int),
            decreases n - i,
        {
            proof {
                assert(entry_addrs(s).take(i + 1) =~= entry_addrs(s).take(i as int).push(
                    s[i as int].1,
                ));
            }
            r.push(peer.network_table.entries[i].1);
            i = i + 1;
        }
        proof {
            assert(entry_addrs(s).take(n as int) =~= entry_addrs(s));
        }
        r
    } else {
        peer.get_heartbeat_successors()
    }
}

} // verus!
