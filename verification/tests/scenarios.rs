use meff::addr::Addr;
use meff::dispatch::handle_notification;
use meff::message::{Action, Content, FileInstructions, Notification};
use meff::peer::{create_peer, Peer};
use meff::request::{handle_lost_connection, push_to_db};

fn addr(last_octet: u32, port: u16) -> Addr {
    Addr { ip: 0x7f00_0000 + last_octet, port }
}

/// Hands every Send action addressed to `node` over to it, as the network
/// would, and returns everything the node emitted in turn.
fn deliver(actions: &[Action], node: &mut Peer, sender: Addr, now: u64) -> Vec<Action> {
    let mut emitted = Vec::new();
    for action in actions {
        if let Action::Send { to, content } = action {
            if *to == node.ip_address {
                let reply = handle_notification(
                    Notification { content: content.clone(), from: sender },
                    node,
                    now,
                );
                emitted.extend(reply);
            }
        }
    }
    emitted
}

#[test]
fn lone_node_then_join_then_replicate_then_loss() {
    let a = addr(1, 4000);
    let b = addr(2, 4001);
    let mut alice = create_peer("alice", a);

    // A alone pushes "x": no redundancy is possible, the store has it.
    let push_x = push_to_db("x".to_string(), vec![1], &mut alice);
    assert_eq!(push_x.len(), 1);
    assert_eq!(alice.redundancy_table.len(), 0);
    assert!(alice.database.data.contains_key(&"x".to_string()));

    // B joins: table request to A, table back to B, update back to A.
    let mut bob = create_peer("bob", b);
    let join = vec![Action::Send {
        to: a,
        content: Content::RequestForTable { value: "bob".to_string() },
    }];
    let table_reply = deliver(&join, &mut alice, b, 100);
    let rebroadcast = deliver(&table_reply, &mut bob, a, 101);
    deliver(&rebroadcast, &mut alice, b, 102);
    for node in [&alice, &bob] {
        assert_eq!(node.network_table.len(), 2);
        assert_eq!(node.network_table.get(&"alice".to_string()), Some(&a));
        assert_eq!(node.network_table.get(&"bob".to_string()), Some(&b));
    }

    // A pushes "y": the redundant target must be B.
    let push_y = push_to_db("y".to_string(), vec![2], &mut alice);
    assert_eq!(push_y.len(), 2);
    assert!(matches!(
        &push_y[1],
        Action::Send { to, content: Content::RedundantPushToDB { .. } } if *to == b
    ));
    assert_eq!(alice.redundancy_table.get(&b), Some(&vec!["y".to_string()]));
    deliver(&push_y, &mut bob, a, 103);
    assert_eq!(bob.database.data.get(&"y".to_string()), Some(&vec![2]));

    // B becomes unreachable: A drops it, keeps its own copy, and clears
    // the redundancy record; with the network back to size one the
    // redistribution is a no-op.
    let loss = handle_lost_connection(b, &mut alice);
    assert!(loss.is_empty());
    assert_eq!(alice.network_table.len(), 1);
    assert_eq!(alice.network_table.get(&"bob".to_string()), None);
    assert!(alice.database.data.contains_key(&"y".to_string()));
    assert!(alice.redundancy_table.get(&b).is_none());
}

#[test]
fn rename_collision_is_resolved_with_a_suffix() {
    let a = addr(1, 4000);
    let c = addr(3, 4002);
    let mut holder = create_peer("alice", a);
    let mut requester = create_peer("alice", c);

    // The requester asks for the table under the taken name "alice".
    let join = vec![Action::Send {
        to: a,
        content: Content::RequestForTable { value: "alice".to_string() },
    }];
    let suggestion = deliver(&join, &mut holder, c, 200);
    assert_eq!(
        suggestion,
        vec![Action::Send { to: c, content: Content::ChangePeerName { value: "alice+1".to_string() } }]
    );

    // Adopting the directive removes the old self-entry: the requester
    // must not keep "alice" bound to itself.
    let retry = deliver(&suggestion, &mut requester, a, 201);
    assert_eq!(requester.name, "alice+1");
    assert_eq!(requester.network_table.get(&"alice".to_string()), None);
    assert_eq!(requester.network_table.get(&"alice+1".to_string()), Some(&c));

    // The handshake is retried under the new name, which is free now.
    assert_eq!(
        retry,
        vec![Action::Send { to: a, content: Content::RequestForTable { value: "alice+1".to_string() } }]
    );
    let table_reply = deliver(&retry, &mut holder, c, 202);
    assert!(matches!(
        &table_reply[0],
        Action::Send { to, content: Content::SendNetworkTable { .. } } if *to == c
    ));
}

#[test]
fn wire_find_file_opens_a_query_round() {
    let a = addr(1, 4000);
    let b = addr(2, 4001);
    let mut alice = create_peer("alice", a);
    let join = vec![Action::Send {
        to: a,
        content: Content::SendNetworkUpdateTable { entries: vec![("bob".to_string(), b)] },
    }];
    deliver(&join, &mut alice, b, 300);
    let queries = handle_notification(
        Notification { content: Content::FindFile { key: "x".to_string() }, from: b },
        &mut alice,
        301,
    );
    assert_eq!(alice.open_request_table.get(&301), Some(&FileInstructions::Get));
    assert_eq!(
        queries,
        vec![Action::Send { to: b, content: Content::ExistFile { key: "x".to_string(), id: 301 } }]
    );
}

#[test]
fn relocated_copy_is_absorbed_into_the_store() {
    let a = addr(1, 4000);
    let b = addr(2, 4001);
    let mut alice = create_peer("alice", a);
    let actions = handle_notification(
        Notification {
            content: Content::GetFileResponse {
                key: "x".to_string(),
                value: vec![6],
                instr: FileInstructions::Order,
            },
            from: b,
        },
        &mut alice,
        400,
    );
    assert!(actions.is_empty());
    assert_eq!(alice.database.data.get(&"x".to_string()), Some(&vec![6]));
}

#[test]
fn dropped_peer_notice_triggers_redistribution() {
    let a = addr(1, 4000);
    let b = addr(2, 4001);
    let c = addr(3, 4002);
    let mut alice = create_peer("alice", a);
    let join = vec![Action::Send {
        to: a,
        content: Content::SendNetworkUpdateTable {
            entries: vec![("bob".to_string(), b), ("carol".to_string(), c)],
        },
    }];
    deliver(&join, &mut alice, b, 500);
    let push = push_to_db("x".to_string(), vec![1], &mut alice);
    assert_eq!(push.len(), 2);
    let lost = if alice.redundancy_table.get(&b).is_some() { b } else { c };
    let survivor = if lost == b { c } else { b };
    let actions = handle_notification(
        Notification { content: Content::DroppedPeer { addr: lost }, from: survivor },
        &mut alice,
        501,
    );
    assert_eq!(alice.network_table.len(), 2);
    assert!(alice.redundancy_table.get(&lost).is_none());
    assert_eq!(
        actions,
        vec![Action::Send {
            to: survivor,
            content: Content::RedundantPushToDB { key: "x".to_string(), value: vec![1], from: a },
        }]
    );
}

#[test]
fn stale_wire_response_is_dropped_silently() {
    let a = addr(1, 4000);
    let b = addr(2, 4001);
    let mut alice = create_peer("alice", a);
    let requests_before = alice.open_request_table.len();
    let table_before = alice.network_table.len();
    let actions = handle_notification(
        Notification {
            content: Content::ExistFileResponse { key: "x".to_string(), id: 12345 },
            from: b,
        },
        &mut alice,
        700,
    );
    assert!(actions.is_empty());
    assert_eq!(alice.open_request_table.len(), requests_before);
    assert_eq!(alice.network_table.len(), table_before);
}

#[test]
fn wire_push_overwrites_on_conflict() {
    let a = addr(1, 4000);
    let origin = addr(9, 4009);
    let mut alice = create_peer("alice", a);
    for bytes in [vec![1u8], vec![2u8]] {
        handle_notification(
            Notification {
                content: Content::PushToDB { key: "x".to_string(), value: bytes, from: origin },
                from: origin,
            },
            &mut alice,
            800,
        );
    }
    assert_eq!(alice.database.data.get(&"x".to_string()), Some(&vec![2u8]));
    assert_eq!(alice.database.data.len(), 1);
}

#[test]
fn table_merge_rebinds_a_known_name() {
    let a = addr(1, 4000);
    let b_old = addr(2, 4001);
    let b_new = addr(2, 5001);
    let mut alice = create_peer("alice", a);
    for bound in [b_old, b_new] {
        handle_notification(
            Notification {
                content: Content::SendNetworkUpdateTable {
                    entries: vec![("bob".to_string(), bound)],
                },
                from: bound,
            },
            &mut alice,
            900,
        );
    }
    assert_eq!(alice.network_table.len(), 2);
    assert_eq!(alice.network_table.get(&"bob".to_string()), Some(&b_new));
}

#[test]
fn ledger_keeps_one_address_per_item() {
    let a = addr(1, 4000);
    let b = addr(2, 4001);
    let mut alice = create_peer("alice", a);
    let join = vec![Action::Send {
        to: a,
        content: Content::SendNetworkUpdateTable { entries: vec![("bob".to_string(), b)] },
    }];
    deliver(&join, &mut alice, b, 1000);
    push_to_db("x".to_string(), vec![1], &mut alice);
    push_to_db("y".to_string(), vec![2], &mut alice);
    assert_eq!(alice.redundancy_table.len(), 1);
    assert_eq!(
        alice.redundancy_table.get(&b),
        Some(&vec!["x".to_string(), "y".to_string()])
    );
}

#[test]
fn exit_notice_ends_with_termination() {
    let a = addr(1, 4000);
    let mut alice = create_peer("alice", a);
    let actions = handle_notification(
        Notification { content: Content::ExitPeer { addr: a }, from: a },
        &mut alice,
        600,
    );
    assert_eq!(actions.last(), Some(&Action::Terminate));
}
