use room_runtime::{
    ClientAction, ClientMessage, ClientMessageReceiver, NetworkState, OutboundMessage,
    OutboundMessageSender, PeerState, Report, RoomConfig, RoomRuntime, ServerSignal, TickStatus,
};

fn room(id: &str) -> NetworkState {
    NetworkState::new(RoomConfig { room_id: id.to_string() })
}

fn init_msg(room_id: &str, pids: &[&str]) -> ClientMessage {
    ClientMessage {
        player_id: String::new(),
        room_id: room_id.to_string(),
        action: ClientAction::InitializeRoom {
            player_ids: pids.iter().map(|p| p.to_string()).collect(),
        },
    }
}

fn ice_msg(room_id: &str, pid: &str, candidate: &str) -> ClientMessage {
    ClientMessage {
        player_id: pid.to_string(),
        room_id: room_id.to_string(),
        action: ClientAction::IceCandidate { candidate: candidate.to_string() },
    }
}

fn answer_msg(room_id: &str, pid: &str, sdp: &str) -> ClientMessage {
    ClientMessage {
        player_id: pid.to_string(),
        room_id: room_id.to_string(),
        action: ClientAction::AnswerReceived { sdp: sdp.to_string() },
    }
}

#[test]
fn initialize_room_scenario_two_offers() {
    let (in_tx, in_rx) = crossbeam_channel::unbounded::<ClientMessage>();
    let (out_tx, out_rx) = crossbeam_channel::unbounded::<OutboundMessage>();
    let rx = ClientMessageReceiver(in_rx);
    let tx = OutboundMessageSender(out_tx);
    let mut rt = RoomRuntime::new(RoomConfig { room_id: "R1".to_string() });

    in_tx.send(init_msg("R1", &["p1", "p2"])).unwrap();
    let out = rt.tick(&rx, &tx);

    assert_eq!(out.status, TickStatus::Running);
    assert_eq!(out.reports.len(), 0);
    assert_eq!(rt.state.peers.len(), 2);
    assert_eq!(rt.state.peers[0].player_id, "p1");
    assert_eq!(rt.state.peers[0].state, PeerState::Negotiating);
    assert_eq!(rt.state.peers[1].player_id, "p2");
    assert_eq!(rt.state.peers[1].state, PeerState::Negotiating);

    let m1 = out_rx.try_recv().unwrap();
    assert_eq!(m1.room_id, "R1");
    assert_eq!(m1.target_player_id, "p1");
    assert_eq!(m1.signal, ServerSignal::SendOffer { sdp: "offer:R1:p1".to_string() });
    let m2 = out_rx.try_recv().unwrap();
    assert_eq!(m2.room_id, "R1");
    assert_eq!(m2.target_player_id, "p2");
    assert_eq!(m2.signal, ServerSignal::SendOffer { sdp: "offer:R1:p2".to_string() });
    assert!(out_rx.try_recv().is_err());
}

#[test]
fn offer_sdp_has_exact_shape() {
    let mut state = room("R7");
    let out = state.process_message(init_msg("R7", &["alice"]));
    assert_eq!(out.outbound.len(), 1);
    assert_eq!(
        out.outbound[0],
        OutboundMessage {
            room_id: "R7".to_string(),
            target_player_id: "alice".to_string(),
            signal: ServerSignal::SendOffer { sdp: "offer:R7:alice".to_string() },
        }
    );
}

#[test]
fn duplicate_initialization_is_idempotent() {
    let mut state = room("R1");
    let first = state.process_message(init_msg("R1", &["p1", "p2"]));
    assert_eq!(first.outbound.len(), 2);
    assert_eq!(first.reports.len(), 0);
    let snapshot = state.peers.clone();

    let second = state.process_message(init_msg("R1", &["p1", "p2"]));
    assert_eq!(second.outbound.len(), 0);
    assert_eq!(
        second.reports,
        vec![
            Report::DuplicateInitialization { player_id: "p1".to_string() },
            Report::DuplicateInitialization { player_id: "p2".to_string() },
        ]
    );
    assert_eq!(state.peers, snapshot);
}

#[test]
fn mismatched_room_id_is_a_routing_error() {
    let mut state = room("R1");
    state.process_message(init_msg("R1", &["p1"]));
    let snapshot = state.peers.clone();

    let out = state.process_message(init_msg("R2", &["p9"]));
    assert_eq!(out.outbound.len(), 0);
    assert_eq!(out.reports, vec![Report::RoutingError { room_id: "R2".to_string() }]);
    assert_eq!(state.peers, snapshot);
}

#[test]
fn entity_state_for_unknown_player_scenario() {
    let mut state = room("R1");
    state.process_message(init_msg("R1", &["p1", "p2"]));
    let snapshot = state.peers.clone();

    let out = state.process_message(ClientMessage {
        player_id: "p9".to_string(),
        room_id: "R1".to_string(),
        action: ClientAction::EntityState,
    });
    assert_eq!(out.outbound.len(), 0);
    assert_eq!(out.reports, vec![Report::UnknownPeer { player_id: "p9".to_string() }]);
    assert_eq!(state.peers, snapshot);
}

#[test]
fn entity_state_for_known_player_is_quiet() {
    let mut state = room("R1");
    state.process_message(init_msg("R1", &["p1"]));
    let out = state.process_message(ClientMessage {
        player_id: "p1".to_string(),
        room_id: "R1".to_string(),
        action: ClientAction::EntityState,
    });
    assert_eq!(out.outbound.len(), 0);
    assert_eq!(out.reports.len(), 0);
}

#[test]
fn early_ice_is_buffered_then_flushed_in_order() {
    let mut state = room("R1");
    let a = state.process_message(ice_msg("R1", "p1", "cand-1"));
    let b = state.process_message(ice_msg("R1", "p1", "cand-2"));
    assert_eq!(a.reports.len(), 0);
    assert_eq!(b.reports.len(), 0);
    assert_eq!(state.peers.len(), 1);
    assert_eq!(state.peers[0].state, PeerState::Uninitialized);
    assert_eq!(state.peers[0].pending_ice, vec!["cand-1".to_string(), "cand-2".to_string()]);
    assert_eq!(state.peers[0].applied_ice.len(), 0);

    let out = state.process_message(init_msg("R1", &["p1"]));
    assert_eq!(out.outbound.len(), 1);
    assert_eq!(out.reports.len(), 0);
    assert_eq!(state.peers[0].state, PeerState::Negotiating);
    assert_eq!(state.peers[0].pending_ice.len(), 0);
    assert_eq!(state.peers[0].applied_ice, vec!["cand-1".to_string(), "cand-2".to_string()]);
}

#[test]
fn ice_while_negotiating_is_applied_at_once() {
    let mut state = room("R1");
    state.process_message(init_msg("R1", &["p1"]));
    state.process_message(ice_msg("R1", "p1", "live-cand"));
    assert_eq!(state.peers[0].pending_ice.len(), 0);
    assert_eq!(state.peers[0].applied_ice, vec!["live-cand".to_string()]);
}

#[test]
fn ice_after_failure_is_discarded() {
    let mut state = room("R1");
    state.process_message(init_msg("R1", &["p1"]));
    let rep = state.fail_peer(&"p1".to_string());
    assert_eq!(rep, Some(Report::NegotiationFailed { player_id: "p1".to_string() }));
    assert_eq!(state.peers[0].state, PeerState::Failed);

    state.process_message(ice_msg("R1", "p1", "late-cand"));
    assert_eq!(state.peers[0].pending_ice.len(), 0);
    assert_eq!(state.peers[0].applied_ice.len(), 0);
}

#[test]
fn answer_moves_negotiating_peer_to_connected() {
    let mut state = room("R1");
    state.process_message(init_msg("R1", &["p1"]));
    let out = state.process_message(answer_msg("R1", "p1", "sdp-answer"));
    assert_eq!(out.outbound.len(), 0);
    assert_eq!(out.reports.len(), 0);
    assert_eq!(state.peers[0].state, PeerState::Connected);
    assert_eq!(state.peers[0].answer_sdp, Some("sdp-answer".to_string()));
}

#[test]
fn answer_from_unknown_player_is_reported() {
    let mut state = room("R1");
    state.process_message(init_msg("R1", &["p1"]));
    let out = state.process_message(answer_msg("R1", "p9", "sdp-answer"));
    assert_eq!(out.outbound.len(), 0);
    assert_eq!(out.reports, vec![Report::UnknownPeer { player_id: "p9".to_string() }]);
}

#[test]
fn failure_of_one_peer_leaves_the_other_untouched() {
    let mut state = room("R1");
    state.process_message(init_msg("R1", &["p1", "p2"]));
    state.process_message(answer_msg("R1", "p1", "sdp-a"));
    let p1_before = state.peers[0].clone();

    let rep = state.fail_peer(&"p2".to_string());
    assert_eq!(rep, Some(Report::NegotiationFailed { player_id: "p2".to_string() }));
    assert_eq!(state.peers[1].state, PeerState::Failed);
    assert_eq!(state.peers[0], p1_before);
}

#[test]
fn failing_an_unknown_or_closed_peer_is_a_no_op() {
    let mut state = room("R1");
    state.process_message(init_msg("R1", &["p1"]));
    assert_eq!(state.fail_peer(&"p9".to_string()), None);
    state.process_message(answer_msg("R1", "p1", "sdp-a"));
    assert!(state.disconnect_peer(&"p1".to_string()));
    assert_eq!(state.fail_peer(&"p1".to_string()), None);
    assert_eq!(state.peers[0].state, PeerState::Closed);
}

#[test]
fn negotiation_times_out_after_its_deadline() {
    let mut state = room("R1");
    state.process_message(init_msg("R1", &["p1"]));
    let mut reports: Vec<Report> = Vec::new();
    let mut ticks = 0u32;
    while state.peers[0].state == PeerState::Negotiating {
        state.advance_ticks(&mut reports);
        ticks += 1;
        assert!(ticks <= 600, "peer should have timed out by now");
    }
    assert_eq!(ticks, 600);
    assert_eq!(state.peers[0].state, PeerState::Failed);
    assert_eq!(reports, vec![Report::NegotiationFailed { player_id: "p1".to_string() }]);
}

#[test]
fn timeout_of_one_peer_leaves_fresh_peers_alone() {
    let mut state = room("R1");
    state.process_message(init_msg("R1", &["p1"]));
    let mut reports: Vec<Report> = Vec::new();
    for _ in 0..300 {
        state.advance_ticks(&mut reports);
    }
    state.process_message(init_msg("R1", &["p2"]));
    for _ in 0..300 {
        state.advance_ticks(&mut reports);
    }
    assert_eq!(state.peers[0].state, PeerState::Failed);
    assert_eq!(state.peers[1].state, PeerState::Negotiating);
    assert_eq!(reports, vec![Report::NegotiationFailed { player_id: "p1".to_string() }]);
}

#[test]
fn connected_peer_never_times_out() {
    let mut state = room("R1");
    state.process_message(init_msg("R1", &["p1"]));
    state.process_message(answer_msg("R1", "p1", "sdp-a"));
    let mut reports: Vec<Report> = Vec::new();
    for _ in 0..700 {
        state.advance_ticks(&mut reports);
    }
    assert_eq!(state.peers[0].state, PeerState::Connected);
    assert_eq!(reports.len(), 0);
}

#[test]
fn full_outbound_channel_retries_until_delivered() {
    let (in_tx, in_rx) = crossbeam_channel::unbounded::<ClientMessage>();
    let (out_tx, out_rx) = crossbeam_channel::bounded::<OutboundMessage>(1);
    let filler = OutboundMessage {
        room_id: "R1".to_string(),
        target_player_id: "other".to_string(),
        signal: ServerSignal::SendIceCandidate { candidate: "c".to_string() },
    };
    out_tx.try_send(filler).unwrap();

    let rx = ClientMessageReceiver(in_rx);
    let tx = OutboundMessageSender(out_tx);
    let mut rt = RoomRuntime::new(RoomConfig { room_id: "R1".to_string() });

    in_tx.send(init_msg("R1", &["p1"])).unwrap();
    let out = rt.tick(&rx, &tx);
    assert_eq!(out.status, TickStatus::Running);
    assert_eq!(rt.pending_outbound.len(), 1, "offer must be kept for the next tick");
    assert_eq!(rt.pending_outbound[0].message.target_player_id, "p1");

    let drained = out_rx.try_recv().unwrap();
    assert_eq!(drained.target_player_id, "other");

    let out = rt.tick(&rx, &tx);
    assert_eq!(out.status, TickStatus::Running);
    assert_eq!(rt.pending_outbound.len(), 0);
    let delivered = out_rx.try_recv().unwrap();
    assert_eq!(delivered.target_player_id, "p1");
    assert_eq!(delivered.signal, ServerSignal::SendOffer { sdp: "offer:R1:p1".to_string() });
}

#[test]
fn undeliverable_message_is_given_up_and_reported() {
    let (in_tx, in_rx) = crossbeam_channel::unbounded::<ClientMessage>();
    let (out_tx, _out_rx_keep) = crossbeam_channel::bounded::<OutboundMessage>(1);
    let filler = OutboundMessage {
        room_id: "R1".to_string(),
        target_player_id: "other".to_string(),
        signal: ServerSignal::SendIceCandidate { candidate: "c".to_string() },
    };
    out_tx.try_send(filler).unwrap();

    let rx = ClientMessageReceiver(in_rx);
    let tx = OutboundMessageSender(out_tx);
    let mut rt = RoomRuntime::new(RoomConfig { room_id: "R1".to_string() });
    in_tx.send(init_msg("R1", &["p1"])).unwrap();

    let mut given_up: Vec<Report> = Vec::new();
    for _ in 0..60 {
        let out = rt.tick(&rx, &tx);
        for r in out.reports {
            if matches!(r, Report::SendGivenUp { .. }) {
                given_up.push(r);
            }
        }
    }
    assert_eq!(given_up, vec![Report::SendGivenUp { target_player_id: "p1".to_string() }]);
    assert_eq!(rt.pending_outbound.len(), 0);
}

#[test]
fn disconnected_inbound_bridge_ends_the_room() {
    let (in_tx, in_rx) = crossbeam_channel::unbounded::<ClientMessage>();
    let (out_tx, _out_rx_keep) = crossbeam_channel::unbounded::<OutboundMessage>();
    let rx = ClientMessageReceiver(in_rx);
    let tx = OutboundMessageSender(out_tx);
    let mut rt = RoomRuntime::new(RoomConfig { room_id: "R1".to_string() });
    in_tx.send(init_msg("R1", &["p1"])).unwrap();
    drop(in_tx);

    let out = rt.tick(&rx, &tx);
    assert_eq!(out.status, TickStatus::BridgeClosed);

    rt.shutdown();
    assert_eq!(rt.state.peers[0].state, PeerState::Closed);
    assert_eq!(rt.pending_outbound.len(), 0);
}

#[test]
fn shutdown_closes_live_peers_and_keeps_failed_ones() {
    let mut rt = RoomRuntime::new(RoomConfig { room_id: "R1".to_string() });
    rt.state.process_message(init_msg("R1", &["p1", "p2", "p3"]));
    rt.state.process_message(answer_msg("R1", "p2", "sdp-b"));
    rt.state.fail_peer(&"p3".to_string());
    rt.shutdown();
    assert_eq!(rt.state.peers[0].state, PeerState::Closed);
    assert_eq!(rt.state.peers[1].state, PeerState::Closed);
    assert_eq!(rt.state.peers[2].state, PeerState::Failed);
}

#[test]
fn peer_state_reads_back_the_lifecycle() {
    let mut state = room("R1");
    assert_eq!(state.peer_state(&"p1".to_string()), PeerState::Uninitialized);
    state.process_message(init_msg("R1", &["p1"]));
    assert_eq!(state.peer_state(&"p1".to_string()), PeerState::Negotiating);
    state.process_message(answer_msg("R1", "p1", "sdp-a"));
    assert_eq!(state.peer_state(&"p1".to_string()), PeerState::Connected);
    assert!(state.disconnect_peer(&"p1".to_string()));
    assert_eq!(state.peer_state(&"p1".to_string()), PeerState::Closed);
}

#[test]
fn per_tick_drain_is_bounded_but_nothing_is_lost() {
    let (in_tx, in_rx) = crossbeam_channel::unbounded::<ClientMessage>();
    let (out_tx, out_rx) = crossbeam_channel::unbounded::<OutboundMessage>();
    let rx = ClientMessageReceiver(in_rx);
    let tx = OutboundMessageSender(out_tx);
    let mut rt = RoomRuntime::new(RoomConfig { room_id: "R1".to_string() });

    for i in 0..70 {
        in_tx.send(init_msg("R1", &[&format!("p{}", i)])).unwrap();
    }
    rt.tick(&rx, &tx);
    assert_eq!(rt.state.peers.len(), 64, "one tick drains at most its budget");
    rt.tick(&rx, &tx);
    assert_eq!(rt.state.peers.len(), 70);

    let mut offers = 0;
    while out_rx.try_recv().is_ok() {
        offers += 1;
    }
    assert_eq!(offers, 70);
}

#[test]
fn local_candidate_is_forwarded_only_to_live_peers() {
    let (in_tx, in_rx) = crossbeam_channel::unbounded::<ClientMessage>();
    let (out_tx, out_rx) = crossbeam_channel::unbounded::<OutboundMessage>();
    let rx = ClientMessageReceiver(in_rx);
    let tx = OutboundMessageSender(out_tx);
    let mut rt = RoomRuntime::new(RoomConfig { room_id: "R1".to_string() });

    in_tx.send(init_msg("R1", &["p1"])).unwrap();
    rt.tick(&rx, &tx);
    let offer = out_rx.try_recv().unwrap();
    assert_eq!(offer.target_player_id, "p1");

    assert!(rt.queue_local_candidate(&"p1".to_string(), "srv-cand".to_string()));
    assert!(!rt.queue_local_candidate(&"p9".to_string(), "srv-cand".to_string()));
    rt.tick(&rx, &tx);

    let forwarded = out_rx.try_recv().unwrap();
    assert_eq!(forwarded.room_id, "R1");
    assert_eq!(forwarded.target_player_id, "p1");
    assert_eq!(
        forwarded.signal,
        ServerSignal::SendIceCandidate { candidate: "srv-cand".to_string() }
    );
    assert!(out_rx.try_recv().is_err());
}

#[test]
fn empty_initialize_room_does_nothing() {
    let mut state = room("R1");
    let out = state.process_message(init_msg("R1", &[]));
    assert_eq!(out.outbound.len(), 0);
    assert_eq!(out.reports.len(), 0);
    assert_eq!(state.peers.len(), 0);
}
