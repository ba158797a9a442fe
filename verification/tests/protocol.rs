use meff::addr::Addr;
use meff::dispatch::{handle_notification, heartbeat_targets};
use meff::message::{Action, Content, FileInstructions, FileStatus, Message, Notification};
use meff::peer::{create_peer, Peer};
use meff::request::{
    change_peer_name, delete_file_request, delete_from_network, exist_file, exist_file_response,
    exit_peer, find_file, get_file, get_file_response, handle_lost_connection, order_song_request,
    other_random_target, push_to_db, redistribute_files, request_for_table, self_status_request,
    send_network_table, send_network_update_table, status_request,
};

fn addr(last_octet: u32, port: u16) -> Addr {
    Addr { ip: 0x7f00_0000 + last_octet, port }
}

fn node_with_peers(own: &str, own_addr: Addr, others: &[(&str, Addr)]) -> Peer {
    let mut peer = create_peer(own, own_addr);
    let entries: Vec<(String, Addr)> = others.iter().map(|(n, a)| (n.to_string(), *a)).collect();
    send_network_update_table(entries, &mut peer);
    peer
}

fn table_lookup(peer: &Peer, name: &str) -> Option<Addr> {
    peer.network_table.get(&name.to_string()).copied()
}

#[test]
fn create_peer_seeds_self() {
    let a = addr(1, 4000);
    let peer = create_peer("alice", a);
    assert_eq!(peer.name, "alice");
    assert_eq!(peer.ip_address, a);
    assert_eq!(peer.network_table.len(), 1);
    assert_eq!(table_lookup(&peer, "alice"), Some(a));
    assert_eq!(peer.database.data.len(), 0);
    assert_eq!(peer.open_request_table.len(), 0);
    assert_eq!(peer.redundancy_table.len(), 0);
}

#[test]
fn merge_is_idempotent() {
    let b = addr(2, 4001);
    let c = addr(3, 4002);
    let table = vec![("bob".to_string(), b), ("carol".to_string(), c)];
    let mut once = create_peer("alice", addr(1, 4000));
    send_network_update_table(table.clone(), &mut once);
    let mut twice = create_peer("alice", addr(1, 4000));
    send_network_update_table(table.clone(), &mut twice);
    send_network_update_table(table, &mut twice);
    assert_eq!(once.network_table.len(), twice.network_table.len());
    for name in ["alice", "bob", "carol"] {
        assert_eq!(table_lookup(&once, name), table_lookup(&twice, name));
    }
}

#[test]
fn merge_of_disjoint_tables_commutes() {
    let t1 = vec![("bob".to_string(), addr(2, 4001))];
    let t2 = vec![("carol".to_string(), addr(3, 4002))];
    let mut left = create_peer("alice", addr(1, 4000));
    send_network_update_table(t1.clone(), &mut left);
    send_network_update_table(t2.clone(), &mut left);
    let mut right = create_peer("alice", addr(1, 4000));
    send_network_update_table(t2, &mut right);
    send_network_update_table(t1, &mut right);
    assert_eq!(left.network_table.len(), right.network_table.len());
    for name in ["alice", "bob", "carol"] {
        assert_eq!(table_lookup(&left, name), table_lookup(&right, name));
    }
}

#[test]
fn no_redundant_target_when_alone() {
    let peer = create_peer("alice", addr(1, 4000));
    assert_eq!(other_random_target(&peer.network_table, &peer.ip_address), None);
}

#[test]
fn redundant_target_is_never_self() {
    let b = addr(2, 4001);
    let peer = node_with_peers("alice", addr(1, 4000), &[("bob", b)]);
    for _ in 0..32 {
        let target = other_random_target(&peer.network_table, &peer.ip_address);
        assert_eq!(target, Some(b));
    }
}

#[test]
fn redundant_target_drawn_from_table() {
    let b = addr(2, 4001);
    let c = addr(3, 4002);
    let peer = node_with_peers("alice", addr(1, 4000), &[("bob", b), ("carol", c)]);
    for _ in 0..32 {
        let target = other_random_target(&peer.network_table, &peer.ip_address)
            .expect("a target must exist");
        assert!(target == b || target == c);
    }
}

#[test]
fn push_stores_and_replicates_once() {
    let a = addr(1, 4000);
    let b = addr(2, 4001);
    let mut peer = node_with_peers("alice", a, &[("bob", b)]);
    let actions = push_to_db("x".to_string(), vec![1, 2, 3], &mut peer);
    assert_eq!(peer.database.data.get(&"x".to_string()), Some(&vec![1, 2, 3]));
    assert_eq!(actions.len(), 2);
    assert_eq!(
        actions[0],
        Action::DatabaseChanged { key: "x".to_string(), status: FileStatus::New }
    );
    assert_eq!(
        actions[1],
        Action::Send {
            to: b,
            content: Content::RedundantPushToDB { key: "x".to_string(), value: vec![1, 2, 3], from: a },
        }
    );
    assert_eq!(peer.redundancy_table.get(&b), Some(&vec!["x".to_string()]));
}

#[test]
fn push_alone_keeps_single_copy() {
    let mut peer = create_peer("alice", addr(1, 4000));
    let actions = push_to_db("x".to_string(), vec![9], &mut peer);
    assert_eq!(actions.len(), 1);
    assert_eq!(
        actions[0],
        Action::DatabaseChanged { key: "x".to_string(), status: FileStatus::New }
    );
    assert_eq!(peer.redundancy_table.len(), 0);
    assert!(peer.database.data.contains_key(&"x".to_string()));
}

#[test]
fn push_of_existing_item_overwrites() {
    let a = addr(1, 4000);
    let b = addr(2, 4001);
    let mut peer = node_with_peers("alice", a, &[("bob", b)]);
    push_to_db("x".to_string(), vec![1], &mut peer);
    let actions = push_to_db("x".to_string(), vec![2], &mut peer);
    assert_eq!(peer.database.data.get(&"x".to_string()), Some(&vec![2]));
    assert_eq!(actions.len(), 2);
    assert_eq!(
        actions[1],
        Action::Send {
            to: b,
            content: Content::RedundantPushToDB { key: "x".to_string(), value: vec![2], from: a },
        }
    );
    // The ledger still records "x" once: the re-push moved the record.
    assert_eq!(peer.redundancy_table.get(&b), Some(&vec!["x".to_string()]));
}

#[test]
fn removed_then_repushed_item_is_recorded_once() {
    let a = addr(1, 4000);
    let b = addr(2, 4001);
    let mut peer = node_with_peers("alice", a, &[("bob", b)]);
    push_to_db("x".to_string(), vec![1], &mut peer);
    find_file(FileInstructions::Remove, "x".to_string(), &mut peer, 42);
    push_to_db("x".to_string(), vec![2], &mut peer);
    let recorded = peer.redundancy_table.get(&b).expect("a record must exist");
    assert_eq!(recorded.iter().filter(|s| s.as_str() == "x").count(), 1);
}

#[test]
fn redistribution_clears_ledger_entry() {
    let a = addr(1, 4000);
    let b = addr(2, 4001);
    let c = addr(3, 4002);
    let mut peer = node_with_peers("alice", a, &[("bob", b), ("carol", c)]);
    push_to_db("x".to_string(), vec![7], &mut peer);
    let lost = if peer.redundancy_table.get(&b).is_some() { b } else { c };
    let survivor = if lost == b { c } else { b };
    delete_from_network(if lost == b { "bob".to_string() } else { "carol".to_string() }, &mut peer);
    let actions = redistribute_files(lost, &mut peer);
    assert!(peer.redundancy_table.get(&lost).is_none());
    assert_eq!(actions.len(), 1);
    assert_eq!(
        actions[0],
        Action::Send {
            to: survivor,
            content: Content::RedundantPushToDB { key: "x".to_string(), value: vec![7], from: a },
        }
    );
}

#[test]
fn redistribution_without_record_is_a_no_op() {
    let mut peer = node_with_peers("alice", addr(1, 4000), &[("bob", addr(2, 4001))]);
    let actions = redistribute_files(addr(9, 9999), &mut peer);
    assert!(actions.is_empty());
    assert_eq!(peer.network_table.len(), 2);
}

#[test]
fn stale_existence_response_changes_nothing() {
    let mut peer = node_with_peers("alice", addr(1, 4000), &[("bob", addr(2, 4001))]);
    let db_before = peer.database.data.len();
    let requests_before = peer.open_request_table.len();
    let actions = exist_file_response("x".to_string(), 777, addr(2, 4001), &mut peer);
    assert!(actions.is_empty());
    assert_eq!(peer.database.data.len(), db_before);
    assert_eq!(peer.open_request_table.len(), requests_before);
}

#[test]
fn existence_response_is_handled_at_most_once() {
    let b = addr(2, 4001);
    let mut peer = node_with_peers("alice", addr(1, 4000), &[("bob", b)]);
    let queries = find_file(FileInstructions::Get, "x".to_string(), &mut peer, 42);
    assert_eq!(queries.len(), 1);
    let first = exist_file_response("x".to_string(), 42, b, &mut peer);
    assert_eq!(first.len(), 1);
    assert_eq!(
        first[0],
        Action::Send {
            to: b,
            content: Content::GetFile { key: "x".to_string(), instr: FileInstructions::Get },
        }
    );
    let second = exist_file_response("x".to_string(), 42, b, &mut peer);
    assert!(second.is_empty());
}

#[test]
fn existence_query_answered_only_on_hit() {
    let b = addr(2, 4001);
    let mut peer = node_with_peers("alice", addr(1, 4000), &[("bob", b)]);
    let silent = exist_file("x".to_string(), 5, b, &mut peer);
    assert!(silent.is_empty());
    push_to_db("x".to_string(), vec![1], &mut peer);
    let reply = exist_file("x".to_string(), 5, b, &mut peer);
    assert_eq!(reply.len(), 1);
    assert_eq!(
        reply[0],
        Action::Send { to: b, content: Content::ExistFileResponse { key: "x".to_string(), id: 5 } }
    );
}

#[test]
fn get_file_replies_with_content_on_hit() {
    let b = addr(2, 4001);
    let mut peer = node_with_peers("alice", addr(1, 4000), &[("bob", b)]);
    push_to_db("x".to_string(), vec![4, 5], &mut peer);
    let hit = get_file(FileInstructions::Play, "x".to_string(), b, &mut peer);
    assert_eq!(hit.len(), 1);
    assert_eq!(
        hit[0],
        Action::Send {
            to: b,
            content: Content::GetFileResponse {
                key: "x".to_string(),
                value: vec![4, 5],
                instr: FileInstructions::Play,
            },
        }
    );
    let miss = get_file(FileInstructions::Play, "y".to_string(), b, &mut peer);
    assert!(miss.is_empty());
}

#[test]
fn get_file_response_dispatches_by_intent() {
    let mut peer = create_peer("alice", addr(1, 4000));
    let play = get_file_response(&FileInstructions::Play, "x", vec![1], &mut peer).unwrap();
    assert_eq!(play, vec![Action::Play { key: "x".to_string(), value: vec![1] }]);
    let get = get_file_response(&FileInstructions::Get, "x", vec![2], &mut peer).unwrap();
    assert_eq!(get, vec![Action::SaveToDisk { key: "x".to_string(), value: vec![2] }]);
    let order = get_file_response(&FileInstructions::Order, "x", vec![3], &mut peer).unwrap();
    assert!(order.is_empty());
    assert_eq!(peer.database.data.get(&"x".to_string()), Some(&vec![3]));
    let unknown = get_file_response(&FileInstructions::Remove, "x", vec![4], &mut peer);
    assert_eq!(unknown, Err("Unknown command".to_string()));
}

#[test]
fn status_request_reports_local_keys_and_name() {
    let b = addr(2, 4001);
    let mut peer = node_with_peers("alice", addr(1, 4000), &[("bob", b)]);
    push_to_db("x".to_string(), vec![1], &mut peer);
    let actions = status_request(b, &mut peer);
    assert_eq!(actions.len(), 1);
    match &actions[0] {
        Action::Send { to, content: Content::StatusResponse { files, name } } => {
            assert_eq!(*to, b);
            assert_eq!(name, "alice");
            assert_eq!(files, &vec!["x".to_string()]);
        }
        other => panic!("unexpected action {:?}", other),
    }
}

#[test]
fn self_status_request_asks_every_member() {
    let mut peer =
        node_with_peers("alice", addr(1, 4000), &[("bob", addr(2, 4001)), ("carol", addr(3, 4002))]);
    let actions = self_status_request(&mut peer);
    assert_eq!(actions.len(), 3);
    for action in &actions {
        assert!(matches!(action, Action::Send { content: Content::StatusRequest, .. }));
    }
}

#[test]
fn find_file_remove_broadcasts_deletion() {
    let b = addr(2, 4001);
    let mut peer = node_with_peers("alice", addr(1, 4000), &[("bob", b)]);
    push_to_db("x".to_string(), vec![1], &mut peer);
    let actions = find_file(FileInstructions::Remove, "x".to_string(), &mut peer, 42);
    assert!(!peer.database.data.contains_key(&"x".to_string()));
    assert_eq!(actions.len(), 2);
    assert_eq!(
        actions[0],
        Action::DatabaseChanged { key: "x".to_string(), status: FileStatus::Delete }
    );
    assert_eq!(
        actions[1],
        Action::Send { to: b, content: Content::DeleteFileRequest { key: "x".to_string() } }
    );
}

#[test]
fn find_file_get_saves_local_copy() {
    let mut peer = node_with_peers("alice", addr(1, 4000), &[("bob", addr(2, 4001))]);
    push_to_db("x".to_string(), vec![8], &mut peer);
    let actions = find_file(FileInstructions::Get, "x".to_string(), &mut peer, 42);
    assert_eq!(actions, vec![Action::SaveToDisk { key: "x".to_string(), value: vec![8] }]);
}

#[test]
fn find_file_queries_network_when_absent() {
    let b = addr(2, 4001);
    let c = addr(3, 4002);
    let mut peer = node_with_peers("alice", addr(1, 4000), &[("bob", b), ("carol", c)]);
    let actions = find_file(FileInstructions::Get, "x".to_string(), &mut peer, 42);
    assert_eq!(peer.open_request_table.get(&42), Some(&FileInstructions::Get));
    assert_eq!(actions.len(), 2);
    for action in &actions {
        match action {
            Action::Send { to, content: Content::ExistFile { key, id } } => {
                assert!(*to == b || *to == c);
                assert_eq!(key, "x");
                assert_eq!(*id, 42);
            }
            other => panic!("unexpected action {:?}", other),
        }
    }
}

#[test]
fn delete_file_request_removes_local_copy() {
    let mut peer = create_peer("alice", addr(1, 4000));
    push_to_db("x".to_string(), vec![1], &mut peer);
    delete_file_request("x", &mut peer);
    assert!(!peer.database.data.contains_key(&"x".to_string()));
    delete_file_request("x", &mut peer);
    assert_eq!(peer.database.data.len(), 0);
}

#[test]
fn delete_from_network_removes_only_that_member() {
    let mut peer = node_with_peers("alice", addr(1, 4000), &[("bob", addr(2, 4001))]);
    delete_from_network("bob".to_string(), &mut peer);
    assert_eq!(peer.network_table.len(), 1);
    assert_eq!(table_lookup(&peer, "bob"), None);
    delete_from_network("nobody".to_string(), &mut peer);
    assert_eq!(peer.network_table.len(), 1);
}

#[test]
fn exit_peer_alone_just_terminates() {
    let a = addr(1, 4000);
    let mut peer = create_peer("alice", a);
    let actions = exit_peer(a, &mut peer);
    assert_eq!(actions, vec![Action::Terminate]);
}

#[test]
fn exit_peer_notifies_and_relocates() {
    let a = addr(1, 4000);
    let b = addr(2, 4001);
    let mut peer = node_with_peers("alice", a, &[("bob", b)]);
    push_to_db("x".to_string(), vec![1], &mut peer);
    let actions = exit_peer(a, &mut peer);
    assert_eq!(actions.len(), 3);
    assert_eq!(
        actions[0],
        Action::Send { to: b, content: Content::DeleteFromNetwork { name: "alice".to_string() } }
    );
    assert_eq!(
        actions[1],
        Action::Send { to: b, content: Content::OrderSongRequest { key: "x".to_string() } }
    );
    assert_eq!(actions[2], Action::Terminate);
}

#[test]
fn order_for_held_item_is_passed_on() {
    let b = addr(2, 4001);
    let mut peer = node_with_peers("alice", addr(1, 4000), &[("bob", b)]);
    push_to_db("x".to_string(), vec![1], &mut peer);
    let actions = order_song_request("x".to_string(), &mut peer, 42);
    assert_eq!(
        actions,
        vec![Action::Send { to: b, content: Content::OrderSongRequest { key: "x".to_string() } }]
    );
    assert!(peer.open_request_table.get(&42).is_none());
}

#[test]
fn order_for_missing_item_starts_a_fetch() {
    let b = addr(2, 4001);
    let mut peer = node_with_peers("alice", addr(1, 4000), &[("bob", b)]);
    let actions = order_song_request("x".to_string(), &mut peer, 42);
    assert_eq!(peer.open_request_table.get(&42), Some(&FileInstructions::Order));
    assert_eq!(actions.len(), 1);
    assert!(matches!(
        &actions[0],
        Action::Send { content: Content::ExistFile { id: 42, .. }, .. }
    ));
}

#[test]
fn rename_rebinds_own_entry() {
    let a = addr(1, 4000);
    let b = addr(2, 4001);
    let mut peer = node_with_peers("alice", a, &[("bob", b)]);
    let actions = change_peer_name("alice+1".to_string(), b, &mut peer);
    assert_eq!(peer.name, "alice+1");
    assert_eq!(table_lookup(&peer, "alice"), None);
    assert_eq!(table_lookup(&peer, "alice+1"), Some(a));
    assert_eq!(
        actions,
        vec![Action::Send { to: b, content: Content::RequestForTable { value: "alice+1".to_string() } }]
    );
}

#[test]
fn taken_name_draws_a_rename_suggestion() {
    let b = addr(2, 4001);
    let mut peer = node_with_peers("alice", addr(1, 4000), &[("bob", b)]);
    let actions = request_for_table("alice".to_string(), b, &mut peer);
    assert_eq!(
        actions,
        vec![Action::Send { to: b, content: Content::ChangePeerName { value: "alice+1".to_string() } }]
    );
}

#[test]
fn free_name_draws_the_table() {
    let b = addr(2, 4001);
    let mut peer = node_with_peers("alice", addr(1, 4000), &[("bob", b)]);
    let actions = request_for_table("carol".to_string(), b, &mut peer);
    assert_eq!(actions.len(), 1);
    match &actions[0] {
        Action::Send { to, content: Content::SendNetworkTable { entries } } => {
            assert_eq!(*to, b);
            assert_eq!(entries.len(), 2);
        }
        other => panic!("unexpected action {:?}", other),
    }
}

#[test]
fn table_merge_is_rebroadcast_to_others() {
    let b = addr(2, 4001);
    let mut peer = node_with_peers("alice", addr(1, 4000), &[("bob", b)]);
    let c = addr(3, 4002);
    let actions = send_network_table(vec![("carol".to_string(), c)], &mut peer);
    assert_eq!(peer.network_table.len(), 3);
    assert_eq!(actions.len(), 2);
    for action in &actions {
        match action {
            Action::Send { to, content: Content::SendNetworkUpdateTable { entries } } => {
                assert!(*to == b || *to == c);
                assert_eq!(entries.len(), 3);
            }
            other => panic!("unexpected action {:?}", other),
        }
    }
}

#[test]
fn lost_connection_drops_broadcasts_and_redistributes() {
    let a = addr(1, 4000);
    let b = addr(2, 4001);
    let c = addr(3, 4002);
    let mut peer = node_with_peers("alice", a, &[("bob", b), ("carol", c)]);
    push_to_db("x".to_string(), vec![1], &mut peer);
    let lost = if peer.redundancy_table.get(&b).is_some() { b } else { c };
    let survivor = if lost == b { c } else { b };
    let actions = handle_lost_connection(lost, &mut peer);
    assert_eq!(peer.network_table.len(), 2);
    assert_eq!(table_lookup(&peer, if lost == b { "bob" } else { "carol" }), None);
    assert!(peer.redundancy_table.get(&lost).is_none());
    assert_eq!(actions.len(), 2);
    assert_eq!(
        actions[0],
        Action::Send { to: survivor, content: Content::DroppedPeer { addr: lost } }
    );
    assert_eq!(
        actions[1],
        Action::Send {
            to: survivor,
            content: Content::RedundantPushToDB { key: "x".to_string(), value: vec![1], from: a },
        }
    );
}

#[test]
fn heartbeat_skips_a_lonely_node() {
    let mut peer = create_peer("alice", addr(1, 4000));
    assert!(heartbeat_targets(&mut peer).is_empty());
}

#[test]
fn heartbeat_probes_small_networks_whole() {
    let mut peer =
        node_with_peers("alice", addr(1, 4000), &[("bob", addr(2, 4001)), ("carol", addr(3, 4002))]);
    let targets = heartbeat_targets(&mut peer);
    assert_eq!(targets.len(), 3);
    for t in [addr(1, 4000), addr(2, 4001), addr(3, 4002)] {
        assert!(targets.contains(&t));
    }
}

#[test]
fn heartbeat_probes_three_successors_in_large_networks() {
    let mut peer = node_with_peers(
        "alice",
        addr(1, 4000),
        &[
            ("bob", addr(2, 4001)),
            ("carol", addr(3, 4002)),
            ("dave", addr(4, 4003)),
            ("erin", addr(5, 4004)),
        ],
    );
    let targets = heartbeat_targets(&mut peer);
    assert_eq!(targets, vec![addr(2, 4001), addr(3, 4002), addr(4, 4003)]);
}

#[test]
fn heartbeat_successors_wrap_around() {
    let mut peer = node_with_peers(
        "erin",
        addr(5, 4004),
        &[
            ("alice", addr(1, 4000)),
            ("bob", addr(2, 4001)),
            ("carol", addr(3, 4002)),
            ("dave", addr(4, 4003)),
        ],
    );
    let targets = heartbeat_targets(&mut peer);
    assert_eq!(targets, vec![addr(1, 4000), addr(2, 4001), addr(3, 4002)]);
}

#[test]
fn peer_addresses_come_out_sorted_by_port() {
    let peer = node_with_peers(
        "alice",
        addr(1, 4777),
        &[("bob", addr(2, 4001)), ("carol", addr(3, 4999)), ("dave", addr(4, 4100))],
    );
    let sorted = peer.get_all_socketaddr_from_peers();
    assert_eq!(sorted, vec![addr(2, 4001), addr(4, 4100), addr(1, 4777), addr(3, 4999)]);
}

#[test]
fn dropping_an_address_removes_every_name_bound_to_it() {
    let shared = addr(7, 4007);
    let mut peer =
        node_with_peers("alice", addr(1, 4000), &[("bob", shared), ("bobby", shared)]);
    peer.drop_peer_by_ip(&shared);
    assert_eq!(peer.network_table.len(), 1);
    assert_eq!(table_lookup(&peer, "bob"), None);
    assert_eq!(table_lookup(&peer, "bobby"), None);
    assert_eq!(table_lookup(&peer, "alice"), Some(addr(1, 4000)));
}

#[test]
fn wire_push_stores_acks_and_replicates() {
    let a = addr(1, 4000);
    let b = addr(2, 4001);
    let origin = addr(9, 4009);
    let mut peer = node_with_peers("alice", a, &[("bob", b)]);
    let actions = handle_notification(
        Notification {
            content: Content::PushToDB { key: "x".to_string(), value: vec![1], from: origin },
            from: origin,
        },
        &mut peer,
        42,
    );
    assert_eq!(peer.database.data.get(&"x".to_string()), Some(&vec![1]));
    assert_eq!(actions.len(), 2);
    assert_eq!(
        actions[0],
        Action::Send {
            to: b,
            content: Content::RedundantPushToDB { key: "x".to_string(), value: vec![1], from: a },
        }
    );
    assert_eq!(
        actions[1],
        Action::Send {
            to: origin,
            content: Content::Response { message: Message::DataStored { key: "x".to_string() } },
        }
    );
}

#[test]
fn stray_acknowledgement_is_ignored() {
    let mut peer = create_peer("alice", addr(1, 4000));
    let actions = handle_notification(
        Notification {
            content: Content::Response { message: Message::DataStored { key: "x".to_string() } },
            from: addr(2, 4001),
        },
        &mut peer,
        42,
    );
    assert!(actions.is_empty());
    assert_eq!(peer.network_table.len(), 1);
    assert_eq!(peer.database.data.len(), 0);
}

#[test]
fn play_request_plays_only_local_items() {
    let mut peer = create_peer("alice", addr(1, 4000));
    push_to_db("song".to_string(), vec![1, 2], &mut peer);
    let hit = handle_notification(
        Notification {
            content: Content::PlayAudioRequest { name: "song".to_string() },
            from: addr(2, 4001),
        },
        &mut peer,
        42,
    );
    assert_eq!(hit, vec![Action::Play { key: "song".to_string(), value: vec![1, 2] }]);
    let miss = handle_notification(
        Notification {
            content: Content::PlayAudioRequest { name: "other".to_string() },
            from: addr(2, 4001),
        },
        &mut peer,
        42,
    );
    assert!(miss.is_empty());
}

#[test]
fn status_response_is_forwarded_to_display() {
    let mut peer = create_peer("alice", addr(1, 4000));
    let actions = handle_notification(
        Notification {
            content: Content::StatusResponse {
                files: vec!["x".to_string()],
                name: "bob".to_string(),
            },
            from: addr(2, 4001),
        },
        &mut peer,
        42,
    );
    assert_eq!(
        actions,
        vec![Action::ShowRemoteFiles { files: vec!["x".to_string()], name: "bob".to_string() }]
    );
}
