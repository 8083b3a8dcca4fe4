use pbft::behavior::{NetworkBehaviourAction, Pbft, PbftEvent};
use pbft::codec::{decode_frame, encode_peer_frame};
use pbft::handler::{ConnectionId, PbftHandlerEvent, PbftHandlerIn};
use pbft::message::{digest, ClientReply, ClientRequest, Commit, Message, PrePrepare, Prepare, Rejection};

fn replica(id: u64, n: u64) -> Pbft {
    let mut p = Pbft::new(id, (0..n).collect());
    for peer in 0..n {
        if peer != id {
            p.inject_connected(peer);
        }
    }
    p
}

fn cluster() -> Vec<Pbft> {
    (0..4).map(|id| replica(id, 4)).collect()
}

fn request(op: &str, timestamp: u64) -> ClientRequest {
    ClientRequest::new(op.to_string(), timestamp, None)
}

/// The handler event a peer reads for a request, sent through the codec.
fn over_the_wire(event: PbftHandlerIn) -> Option<PbftHandlerEvent> {
    let message = match event {
        PbftHandlerIn::PrePrepareRequest(m) => Message::PrePrepare(m),
        PbftHandlerIn::PrepareRequest(m) => Message::Prepare(m),
        PbftHandlerIn::CommitRequest(m) => Message::Commit(m),
        _ => return None,
    };
    let connection_id = ConnectionId(0);
    match decode_frame(&encode_peer_frame(&message)).unwrap() {
        Message::PrePrepare(request) => Some(PbftHandlerEvent::ProcessPrePrepareRequest { request, connection_id }),
        Message::Prepare(request) => Some(PbftHandlerEvent::ProcessPrepareRequest { request, connection_id }),
        Message::Commit(request) => Some(PbftHandlerEvent::ProcessCommitRequest { request, connection_id }),
        Message::ClientRequest(_) => None,
    }
}

/// Delivers every queued request until no replica has anything left;
/// returns the committed events, by replica.
fn run(nodes: &mut Vec<Pbft>) -> Vec<(u64, PbftEvent)> {
    let mut executed = Vec::new();
    loop {
        let mut progress = false;
        for i in 0..nodes.len() {
            while let Some(action) = nodes[i].poll() {
                progress = true;
                match action {
                    NetworkBehaviourAction::SendEvent { peer_id, event } => {
                        if let Some(ev) = over_the_wire(event) {
                            nodes[peer_id as usize].inject_node_event(i as u64, ev);
                        }
                    }
                    NetworkBehaviourAction::GenerateEvent(e) => executed.push((i as u64, e)),
                    NetworkBehaviourAction::DialPeer { .. } => {}
                }
            }
        }
        if !progress {
            return executed;
        }
    }
}

fn drain(node: &mut Pbft) -> Vec<NetworkBehaviourAction> {
    let mut out = Vec::new();
    while let Some(a) = node.poll() {
        out.push(a);
    }
    out
}

fn count_prepares(actions: &[NetworkBehaviourAction]) -> usize {
    actions
        .iter()
        .filter(|a| matches!(a, NetworkBehaviourAction::SendEvent { event: PbftHandlerIn::PrepareRequest(_), .. }))
        .count()
}

fn count_commits(actions: &[NetworkBehaviourAction]) -> usize {
    actions
        .iter()
        .filter(|a| matches!(a, NetworkBehaviourAction::SendEvent { event: PbftHandlerIn::CommitRequest(_), .. }))
        .count()
}

fn answers(actions: &[NetworkBehaviourAction]) -> Vec<Vec<u8>> {
    actions
        .iter()
        .filter_map(|a| match a {
            NetworkBehaviourAction::SendEvent { event: PbftHandlerIn::PrePrepareResponse(b, _), .. }
            | NetworkBehaviourAction::SendEvent { event: PbftHandlerIn::PrepareResponse(b, _), .. }
            | NetworkBehaviourAction::SendEvent { event: PbftHandlerIn::CommitResponse(b, _), .. } => Some(b.clone()),
            _ => None,
        })
        .collect()
}

#[test]
fn happy_path_four_replicas() {
    let mut nodes = cluster();
    assert_eq!(nodes[0].add_client_request(request("x", 42)), Ok(()));
    let executed = run(&mut nodes);
    let d = digest(b"x");
    for (id, node) in nodes.iter().enumerate() {
        let pp = node.state().get_pre_prepare_by_key(0, 1).unwrap();
        assert_eq!(pp.digest, d);
        assert!(node.state().prepare_len(0, 1) >= 3);
        assert_eq!(node.state().commit_len(0, 1), 4);
        let mine: Vec<_> = executed.iter().filter(|(r, _)| *r == id as u64).collect();
        assert_eq!(mine.len(), 1);
        assert_eq!(mine[0].1, PbftEvent { view: 0, sequence_number: 1 });
        let reply = ClientReply::new(id as u64, pp, &Commit::from(&Prepare::from(pp)), "ok".to_string());
        assert_eq!((reply.view, reply.timestamp), (0, 42));
    }
}

#[test]
fn committed_replicas_agree_on_the_digest() {
    let mut nodes = cluster();
    nodes[0].add_client_request(request("x", 1)).unwrap();
    run(&mut nodes);
    let d = nodes[0].state().get_pre_prepare_by_key(0, 1).unwrap().digest.clone();
    for id in 0..4u64 {
        let node = &nodes[id as usize];
        assert!(node.state().is_committed_local(0, 1, &d, 1, 0));
    }
}

#[test]
fn duplicate_request_gets_two_sequence_numbers() {
    let mut nodes = cluster();
    nodes[0].add_client_request(request("x", 42)).unwrap();
    nodes[0].add_client_request(request("x", 42)).unwrap();
    let executed = run(&mut nodes);
    for node in nodes.iter() {
        let a = node.state().get_pre_prepare_by_key(0, 1).unwrap();
        let b = node.state().get_pre_prepare_by_key(0, 2).unwrap();
        assert_eq!(a.digest, digest(b"x"));
        assert_eq!(b.digest, digest(b"x"));
    }
    assert_eq!(executed.iter().filter(|(r, _)| *r == 0).count(), 2);
    assert_eq!(executed.len(), 8);
}

#[test]
fn conflicting_pre_prepares_never_commit() {
    let mut nodes = cluster();
    let x = PrePrepare::from(0, 1, request("x", 1));
    let y = PrePrepare::from(0, 1, request("y", 1));
    assert_eq!(nodes[0].process_pre_prepare(x.clone()), Ok(()));
    let to = |request: PrePrepare| PbftHandlerEvent::ProcessPrePrepareRequest { request, connection_id: ConnectionId(0) };
    nodes[1].inject_node_event(0, to(x.clone()));
    nodes[2].inject_node_event(0, to(y.clone()));
    nodes[3].inject_node_event(0, to(y.clone()));
    let executed = run(&mut nodes);
    assert!(executed.is_empty());
    // A and B hold two prepares for x, one of them the primary's: not prepared.
    for id in 0..2usize {
        let s = nodes[id].state();
        assert!(!s.is_prepared(0, 1, &x.digest, 1, 0));
        assert!(!s.is_committed_local(0, 1, &x.digest, 1, 0));
    }
    // C and D hold prepares for y from both of them, which makes 2f, but
    // their two commits are short of the 2f + 1 a commit needs.
    for id in 2..4usize {
        let s = nodes[id].state();
        assert!(s.is_prepared(0, 1, &y.digest, 1, 0));
        assert_eq!(s.commit_len(0, 1), 2);
        assert!(!s.is_committed_local(0, 1, &y.digest, 1, 0));
    }
}

#[test]
fn tampered_digest_is_refused_without_change() {
    let mut node = replica(1, 4);
    let mut pp = PrePrepare::from(0, 1, request("x", 1));
    pp.message.operation = "z".to_string();
    assert_eq!(node.process_pre_prepare(pp.clone()), Err(Rejection::BadDigest));
    node.inject_node_event(0, PbftHandlerEvent::ProcessPrePrepareRequest { request: pp, connection_id: ConnectionId(4) });
    assert!(node.state().get_pre_prepare_by_key(0, 1).is_none());
    assert_eq!(node.state().prepare_len(0, 1), 0);
    let actions = drain(&mut node);
    assert_eq!(actions.len(), 1);
    assert_eq!(answers(&actions), vec![b"NG".to_vec()]);
}

#[test]
fn wrong_view_is_refused_without_change() {
    let mut node = replica(1, 4);
    let pp = PrePrepare::from(1, 1, request("x", 1));
    assert_eq!(node.process_pre_prepare(pp), Err(Rejection::WrongView));
    assert!(node.state().get_pre_prepare_by_key(1, 1).is_none());
    assert!(node.poll().is_none());
    let p = Prepare::from(&PrePrepare::from(1, 1, request("x", 1)));
    assert_eq!(node.process_prepare(2, p), Err(Rejection::WrongView));
    assert_eq!(node.state().prepare_len(1, 1), 0);
}

#[test]
fn second_pre_prepare_with_other_digest_is_refused() {
    let mut node = replica(1, 4);
    assert_eq!(node.process_pre_prepare(PrePrepare::from(0, 1, request("x", 1))), Ok(()));
    drain(&mut node);
    assert_eq!(
        node.process_pre_prepare(PrePrepare::from(0, 1, request("y", 1))),
        Err(Rejection::ConflictingPrePrepare)
    );
    assert!(node.poll().is_none());
    assert_eq!(node.state().get_pre_prepare_by_key(0, 1).unwrap().digest, digest(b"x"));
}

#[test]
fn late_prepares_promote_once_the_pre_prepare_arrives() {
    let mut node = replica(1, 4);
    let pp = PrePrepare::from(0, 1, request("x", 1));
    for sender in [0u64, 2, 3] {
        assert_eq!(node.process_prepare(sender, Prepare::from(&pp)), Ok(()));
    }
    assert_eq!(count_commits(&drain(&mut node)), 0);
    assert_eq!(node.process_pre_prepare(pp.clone()), Ok(()));
    let actions = drain(&mut node);
    assert_eq!(count_prepares(&actions), 3);
    assert_eq!(count_commits(&actions), 3);
    assert!(node.state().is_prepared(0, 1, &pp.digest, 1, 0));
    assert_eq!(node.process_prepare(2, Prepare::from(&pp)), Ok(()));
    assert_eq!(count_commits(&drain(&mut node)), 0);
}

#[test]
fn prepare_with_other_digest_than_the_logged_pre_prepare_is_refused() {
    let mut node = replica(1, 4);
    node.process_pre_prepare(PrePrepare::from(0, 1, request("x", 1))).unwrap();
    let other = Prepare::from(&PrePrepare::from(0, 1, request("y", 1)));
    assert_eq!(node.process_prepare(2, other), Err(Rejection::BadDigest));
    assert_eq!(node.state().prepare_len(0, 1), 1);
}

#[test]
fn equivocating_commit_is_refused() {
    let mut node = replica(1, 4);
    let cx = Commit::from(&Prepare::from(&PrePrepare::from(0, 1, request("x", 1))));
    let cy = Commit::from(&Prepare::from(&PrePrepare::from(0, 1, request("y", 1))));
    assert_eq!(node.process_commit(2, cx), Ok(()));
    assert_eq!(node.process_commit(2, cy), Err(Rejection::Equivocation));
    assert_eq!(node.state().commit_len(0, 1), 1);
}

#[test]
fn one_prepare_broadcast_per_slot() {
    let mut node = replica(1, 4);
    let pp = PrePrepare::from(0, 1, request("x", 1));
    node.process_pre_prepare(pp.clone()).unwrap();
    node.process_pre_prepare(pp.clone()).unwrap();
    let actions = drain(&mut node);
    assert_eq!(count_prepares(&actions), 3);
}

#[test]
fn primary_sequence_numbers_increase() {
    let mut node = replica(0, 4);
    for _ in 0..3 {
        node.add_client_request(request("x", 1)).unwrap();
    }
    let seqs: Vec<u64> = drain(&mut node)
        .into_iter()
        .filter_map(|a| match a {
            NetworkBehaviourAction::SendEvent { peer_id: 1, event: PbftHandlerIn::PrePrepareRequest(pp) } => {
                Some(pp.sequence_number)
            }
            _ => None,
        })
        .collect();
    assert_eq!(seqs, vec![1, 2, 3]);
}

#[test]
fn backup_refuses_client_requests() {
    let mut node = replica(2, 4);
    assert_eq!(node.add_client_request(request("x", 1)), Err(Rejection::NotPrimary));
    assert!(node.poll().is_none());
}

#[test]
fn requests_are_answered_ok_on_their_connection() {
    let mut node = replica(1, 4);
    let pp = PrePrepare::from(0, 1, request("x", 1));
    node.inject_node_event(0, PbftHandlerEvent::ProcessPrePrepareRequest { request: pp, connection_id: ConnectionId(7) });
    let actions = drain(&mut node);
    match actions.last().unwrap() {
        NetworkBehaviourAction::SendEvent { peer_id: 0, event: PbftHandlerIn::PrePrepareResponse(b, c) } => {
            assert_eq!(b, b"OK");
            assert_eq!(*c, ConnectionId(7));
        }
        other => panic!("unexpected {:?}", other),
    }
    node.inject_node_event(2, PbftHandlerEvent::Response { response: b"OK".to_vec() });
    assert!(node.poll().is_none());
}

#[test]
fn peers_and_addresses() {
    let mut node = Pbft::new(0, vec![0, 1]);
    assert!(!node.has_peer(1));
    node.add_peer(1, &"/ip4/127.0.0.1/tcp/1".to_string());
    node.add_peer(1, &"/ip4/127.0.0.1/tcp/1".to_string());
    node.add_peer(1, &"/ip4/127.0.0.1/tcp/2".to_string());
    let dials = drain(&mut node);
    assert_eq!(dials.len(), 2);
    assert!(matches!(dials[0], NetworkBehaviourAction::DialPeer { peer_id: 1 }));
    assert_eq!(node.addresses_of_peer(1), vec!["/ip4/127.0.0.1/tcp/1".to_string(), "/ip4/127.0.0.1/tcp/2".to_string()]);
    assert!(node.addresses_of_peer(2).is_empty());
    node.inject_connected(1);
    node.inject_connected(1);
    assert!(node.has_peer(1));
    node.inject_disconnected(1);
    assert!(!node.has_peer(1));
    assert_eq!(node.addresses_of_peer(1).len(), 2);
}

#[test]
fn primary_and_fault_bound() {
    let node = replica(3, 4);
    assert_eq!(node.f(), 1);
    assert_eq!(node.primary(0), 0);
    assert_eq!(node.primary(5), 1);
    assert_eq!(node.local_id(), 3);
    assert_eq!(replica(0, 7).f(), 2);
}

#[test]
fn discovered_peers_are_recorded_and_dialled_once() {
    let mut node = Pbft::new(0, vec![0, 1, 2]);
    let found = vec![
        (1u64, "/ip4/127.0.0.1/tcp/1".to_string()),
        (2u64, "/ip4/127.0.0.1/tcp/2".to_string()),
        (1u64, "/ip4/127.0.0.1/tcp/1".to_string()),
    ];
    node.inject_discovered(&found);
    let dials: Vec<u64> = drain(&mut node)
        .into_iter()
        .filter_map(|a| match a {
            NetworkBehaviourAction::DialPeer { peer_id } => Some(peer_id),
            _ => None,
        })
        .collect();
    assert_eq!(dials, vec![1, 2]);
    assert_eq!(node.addresses_of_peer(1).len(), 1);
}

#[test]
fn expired_peers_are_disconnected_and_not_resent_to() {
    let mut node = replica(0, 4);
    node.inject_expired(&vec![1, 3]);
    assert!(!node.has_peer(1) && node.has_peer(2) && !node.has_peer(3));
    node.remove_peer(2);
    assert!(!node.has_peer(2));
    node.add_client_request(request("x", 1)).unwrap();
    assert_eq!(count_prepares(&drain(&mut node)), 0);
    node.inject_connected(1);
    assert!(node.poll().is_none());
}

#[test]
fn one_silent_backup_does_not_stop_commits() {
    let mut nodes = cluster();
    for node in nodes.iter_mut().take(3) {
        node.inject_disconnected(3);
    }
    nodes.truncate(3);
    nodes[0].add_client_request(request("x", 42)).unwrap();
    let executed = run(&mut nodes);
    assert_eq!(executed.len(), 3);
    let d = digest(b"x");
    for node in nodes.iter() {
        assert!(node.state().is_committed_local(0, 1, &d, 1, 0));
        assert_eq!(node.state().commit_len(0, 1), 3);
    }
}

#[test]
fn vote_claiming_this_replica_is_refused() {
    let mut node = replica(1, 4);
    let p = Prepare::from(&PrePrepare::from(0, 1, request("x", 1)));
    assert_eq!(node.process_prepare(1, p), Err(Rejection::ImpersonatedSender));
    let c = Commit::from(&Prepare::from(&PrePrepare::from(0, 1, request("x", 1))));
    assert_eq!(node.process_commit(1, c), Err(Rejection::ImpersonatedSender));
    assert_eq!(node.state().prepare_len(0, 1), 0);
    assert_eq!(node.state().commit_len(0, 1), 0);
}
