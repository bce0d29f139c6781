//! The laws of the room runtime, each proved once and for all over the pure
//! step functions of `room` — and therefore, through the exact contracts of
//! `NetworkState`, over the executable code as well.

use crate::messages::{ActionView, MessageView, OutboundView, ReportView, SignalView};
use crate::peer::{
    spec_applied, spec_connected, spec_offer_msg, PeerState, PeerView,
};
use crate::room::{
    find_index, lemma_find_index, lemma_find_index_of_present, lemma_init_all_extends,
    lemma_process_message_frame, peer_applied_of, peer_pending_of, peer_state_of, spec_advance,
    spec_answer, spec_fail_peer, spec_ice, spec_init_all, spec_init_one, spec_process_all,
    spec_process_message, spec_tick_peer, wf_peers, StateView,
};
use vstd::prelude::*;

verus! {

/// Whether `m` is an offer addressed to `pid`.
pub open spec fn spec_is_offer_for(m: OutboundView, pid: Seq<char>) -> bool {
    m.target_player_id == pid && m.signal is SendOffer
}

/// How many offers addressed to `pid` a batch of outbound messages holds.
pub open spec fn count_offers_for(out: Seq<OutboundView>, pid: Seq<char>) -> nat
    decreases out.len(),
{
    if out.len() == 0 {
        0
    } else {
        count_offers_for(out.drop_last(), pid) + if spec_is_offer_for(out.last(), pid) {
            1nat
        } else {
            0nat
        }
    }
}

/// Offers in a concatenation are the offers of the parts.
pub proof fn lemma_count_offers_concat(a: Seq<OutboundView>, b: Seq<OutboundView>, pid: Seq<char>)
    ensures
        count_offers_for(a + b, pid) == count_offers_for(a, pid) + count_offers_for(b, pid),
    decreases b.len(),
{
    if b.len() == 0 {
        assert(a + b =~= a);
    } else {
        lemma_count_offers_concat(a, b.drop_last(), pid);
        assert((a + b).drop_last() =~= a + b.drop_last());
        assert((a + b).last() == b.last());
    }
}

/// Where every entry names another player, there is nothing to find.
pub proof fn lemma_find_index_of_absent(peers: Seq<PeerView>, pid: Seq<char>)
    requires
        forall|j: int| 0 <= j < peers.len() ==> peers[j].player_id != pid,
    ensures
        find_index(peers, pid) is None,
{
    lemma_find_index(peers, pid);
    match find_index(peers, pid) {
        Some(k) => {
            assert(peers[k].player_id != pid);
        },
        None => {},
    }
}

/// Everything one `spec_init_one` step does, player by player: the named
/// player starts negotiating if and only if it was uninitialized, with
/// exactly one offer then and none otherwise; no other player's state
/// changes, and no other player is sent anything.
pub proof fn lemma_init_one_props(s: StateView, pid: Seq<char>)
    requires
        wf_peers(s.peers),
    ensures
        spec_init_one(s, pid).state.room_id == s.room_id,
        wf_peers(spec_init_one(s, pid).state.peers),
        peer_state_of(s, pid) == PeerState::Uninitialized ==> peer_state_of(
            spec_init_one(s, pid).state,
            pid,
        ) == PeerState::Negotiating && count_offers_for(spec_init_one(s, pid).outbound, pid) == 1,
        peer_state_of(s, pid) != PeerState::Uninitialized ==> peer_state_of(
            spec_init_one(s, pid).state,
            pid,
        ) == peer_state_of(s, pid) && count_offers_for(spec_init_one(s, pid).outbound, pid) == 0,
        forall|q: Seq<char>|
            q != pid ==> peer_state_of(spec_init_one(s, pid).state, q) == peer_state_of(s, q)
                && count_offers_for(spec_init_one(s, pid).outbound, q) == 0,
{
    let r = spec_init_one(s, pid);
    match find_index(s.peers, pid) {
        None => {
            lemma_find_index(s.peers, pid);
            let pushed = r.state.peers;
            assert forall|a: int, b: int|
                0 <= a < b < pushed.len() implies pushed[a].player_id != pushed[b].player_id by {
                if b == s.peers.len() {
                    assert(s.peers[a].player_id != pid);
                }
            }
            lemma_find_index_of_present(pushed, pid, s.peers.len() as int);
            assert(r.outbound.drop_last() =~= Seq::<OutboundView>::empty());
            assert(count_offers_for(Seq::<OutboundView>::empty(), pid) == 0);
            assert(count_offers_for(r.outbound, pid) == 1);
            assert forall|q: Seq<char>|
                q != pid implies peer_state_of(r.state, q) == peer_state_of(s, q)
                && count_offers_for(r.outbound, q) == 0 by {
                match find_index(s.peers, q) {
                    Some(i) => {
                        lemma_find_index(s.peers, q);
                        lemma_find_index_of_present(pushed, q, i);
                    },
                    None => {
                        lemma_find_index(s.peers, q);
                        lemma_find_index_of_absent(pushed, q);
                    },
                }
                assert(!spec_is_offer_for(spec_offer_msg(s.room_id, pid), q));
                assert(r.outbound.drop_last() =~= Seq::<OutboundView>::empty());
                assert(count_offers_for(Seq::<OutboundView>::empty(), q) == 0);
                assert(count_offers_for(r.outbound, q) == 0);
            }
        },
        Some(i) => {
            lemma_find_index(s.peers, pid);
            if s.peers[i].state == PeerState::Uninitialized {
                let updated = r.state.peers;
                assert forall|a: int, b: int|
                    0 <= a < b < updated.len() implies updated[a].player_id
                    != updated[b].player_id by {
                    assert(updated[a].player_id == s.peers[a].player_id);
                    assert(updated[b].player_id == s.peers[b].player_id);
                }
                lemma_find_index_of_present(updated, pid, i);
                assert(r.outbound.drop_last() =~= Seq::<OutboundView>::empty());
                assert(count_offers_for(Seq::<OutboundView>::empty(), pid) == 0);
                assert(count_offers_for(r.outbound, pid) == 1);
                assert forall|q: Seq<char>|
                    q != pid implies peer_state_of(r.state, q) == peer_state_of(s, q)
                    && count_offers_for(r.outbound, q) == 0 by {
                    match find_index(s.peers, q) {
                        Some(k) => {
                            lemma_find_index(s.peers, q);
                            assert(k != i);
                            lemma_find_index_of_present(updated, q, k);
                        },
                        None => {
                            lemma_find_index(s.peers, q);
                            lemma_find_index_of_absent(updated, q);
                        },
                    }
                    assert(!spec_is_offer_for(spec_offer_msg(s.room_id, pid), q));
                    assert(r.outbound.drop_last() =~= Seq::<OutboundView>::empty());
                    assert(count_offers_for(Seq::<OutboundView>::empty(), q) == 0);
                    assert(count_offers_for(r.outbound, q) == 0);
                }
            } else {
            }
        },
    }
}

/// Initialization keeps the room well formed and under its own id.
pub proof fn lemma_init_all_wf(s: StateView, pids: Seq<Seq<char>>)
    requires
        wf_peers(s.peers),
    ensures
        wf_peers(spec_init_all(s, pids).state.peers),
        spec_init_all(s, pids).state.room_id == s.room_id,
    decreases pids.len(),
{
    if pids.len() > 0 {
        lemma_init_all_wf(s, pids.drop_last());
        lemma_init_one_props(spec_init_all(s, pids.drop_last()).state, pids.last());
    }
}

/// A player that `InitializeRoom` does not name is left exactly as it was,
/// and is sent nothing.
pub proof fn lemma_init_all_frame(s: StateView, pids: Seq<Seq<char>>, q: Seq<char>)
    requires
        wf_peers(s.peers),
        !pids.contains(q),
    ensures
        peer_state_of(spec_init_all(s, pids).state, q) == peer_state_of(s, q),
        count_offers_for(spec_init_all(s, pids).outbound, q) == 0,
    decreases pids.len(),
{
    if pids.len() == 0 {
    } else {
        let prev = spec_init_all(s, pids.drop_last());
        assert(!pids.drop_last().contains(q)) by {
            if pids.drop_last().contains(q) {
                let k = choose|k: int| 0 <= k < pids.drop_last().len() && pids.drop_last()[k] == q;
                assert(pids[k] == q);
            }
        }
        lemma_init_all_frame(s, pids.drop_last(), q);
        lemma_init_all_wf(s, pids.drop_last());
        lemma_init_one_props(prev.state, pids.last());
        assert(pids.last() != q) by {
            assert(pids[pids.len() - 1] == pids.last());
        }
        lemma_count_offers_concat(prev.outbound, spec_init_one(prev.state, pids.last()).outbound, q);
    }
}

/// Law: a valid `InitializeRoom` leaves every player it names negotiating,
/// with exactly one `SendOffer` enqueued for that player.
pub proof fn law_initialize_room_negotiating(s: StateView, pids: Seq<Seq<char>>, p: Seq<char>)
    requires
        wf_peers(s.peers),
        pids.contains(p),
        peer_state_of(s, p) == PeerState::Uninitialized,
    ensures
        peer_state_of(spec_init_all(s, pids).state, p) == PeerState::Negotiating,
        count_offers_for(spec_init_all(s, pids).outbound, p) == 1,
    decreases pids.len(),
{
    let prev = spec_init_all(s, pids.drop_last());
    let step = spec_init_one(prev.state, pids.last());
    lemma_init_all_wf(s, pids.drop_last());
    lemma_init_one_props(prev.state, pids.last());
    lemma_count_offers_concat(prev.outbound, step.outbound, p);
    if pids.last() == p {
        if pids.drop_last().contains(p) {
            law_initialize_room_negotiating(s, pids.drop_last(), p);
        } else {
            lemma_init_all_frame(s, pids.drop_last(), p);
        }
    } else {
        assert(pids.drop_last().contains(p)) by {
            let k = choose|k: int| 0 <= k < pids.len() && pids[k] == p;
            assert(k < pids.len() - 1);
            assert(pids.drop_last()[k] == p);
        }
        law_initialize_room_negotiating(s, pids.drop_last(), p);
    }
}

/// Law: initializing an already-negotiating player is an idempotent no-op:
/// its state is not reset and no additional outbound message is produced,
/// only the duplicate is reported.
pub proof fn law_duplicate_initialize_idempotent(s: StateView, pid: Seq<char>)
    requires
        wf_peers(s.peers),
        peer_state_of(s, pid) == PeerState::Negotiating,
    ensures
        spec_init_one(s, pid).state == s,
        spec_init_one(s, pid).outbound == Seq::<OutboundView>::empty(),
        spec_init_one(s, pid).reports == seq![
            ReportView::DuplicateInitialization { player_id: pid },
        ],
{
    lemma_find_index(s.peers, pid);
}

/// Law: a message whose `room_id` mismatches the room's own id mutates
/// nothing; the only effect is one reported routing error.
pub proof fn law_routing_mismatch(s: StateView, m: MessageView)
    requires
        m.room_id != s.room_id,
    ensures
        spec_process_message(s, m).state == s,
        spec_process_message(s, m).outbound == Seq::<OutboundView>::empty(),
        spec_process_message(s, m).reports == seq![ReportView::RoutingError { room_id: m.room_id }],
{
}

/// Law: an ICE candidate received while the peer is `Uninitialized` is
/// buffered behind those already waiting — nothing applied, nothing lost.
pub proof fn law_early_ice_buffered(s: StateView, pid: Seq<char>, c: Seq<char>)
    requires
        wf_peers(s.peers),
        peer_state_of(s, pid) == PeerState::Uninitialized,
    ensures
        peer_state_of(spec_ice(s, pid, c).state, pid) == PeerState::Uninitialized,
        peer_pending_of(spec_ice(s, pid, c).state, pid) == peer_pending_of(s, pid).push(c),
        peer_applied_of(spec_ice(s, pid, c).state, pid) == peer_applied_of(s, pid),
{
    let r = spec_ice(s, pid, c);
    match find_index(s.peers, pid) {
        None => {
            lemma_find_index(s.peers, pid);
            assert forall|a: int, b: int|
                0 <= a < b < r.state.peers.len() implies r.state.peers[a].player_id
                != r.state.peers[b].player_id by {
                if b == s.peers.len() {
                    assert(s.peers[a].player_id != pid);
                }
            }
            lemma_find_index_of_present(r.state.peers, pid, s.peers.len() as int);
            assert(peer_pending_of(r.state, pid) =~= peer_pending_of(s, pid).push(c));
        },
        Some(i) => {
            lemma_find_index(s.peers, pid);
            assert forall|a: int, b: int|
                0 <= a < b < r.state.peers.len() implies r.state.peers[a].player_id
                != r.state.peers[b].player_id by {
                assert(r.state.peers[a].player_id == s.peers[a].player_id);
                assert(r.state.peers[b].player_id == s.peers[b].player_id);
            }
            lemma_find_index_of_present(r.state.peers, pid, i);
        },
    }
}

/// Law: once the peer reaches `Negotiating`, the buffered candidates are
/// flushed in original arrival order, none lost or reordered, and the
/// buffer is empty.
pub proof fn law_initialize_flushes_buffered_ice(s: StateView, pid: Seq<char>)
    requires
        wf_peers(s.peers),
        peer_state_of(s, pid) == PeerState::Uninitialized,
    ensures
        peer_state_of(spec_init_one(s, pid).state, pid) == PeerState::Negotiating,
        peer_applied_of(spec_init_one(s, pid).state, pid) == peer_applied_of(s, pid)
            + peer_pending_of(s, pid),
        peer_pending_of(spec_init_one(s, pid).state, pid) == Seq::<Seq<char>>::empty(),
{
    let r = spec_init_one(s, pid);
    match find_index(s.peers, pid) {
        None => {
            lemma_find_index(s.peers, pid);
            assert forall|a: int, b: int|
                0 <= a < b < r.state.peers.len() implies r.state.peers[a].player_id
                != r.state.peers[b].player_id by {
                if b == s.peers.len() {
                    assert(s.peers[a].player_id != pid);
                }
            }
            lemma_find_index_of_present(r.state.peers, pid, s.peers.len() as int);
            assert(peer_applied_of(r.state, pid) =~= peer_applied_of(s, pid) + peer_pending_of(
                s,
                pid,
            ));
        },
        Some(i) => {
            lemma_find_index(s.peers, pid);
            assert forall|a: int, b: int|
                0 <= a < b < r.state.peers.len() implies r.state.peers[a].player_id
                != r.state.peers[b].player_id by {
                assert(r.state.peers[a].player_id == s.peers[a].player_id);
                assert(r.state.peers[b].player_id == s.peers[b].player_id);
            }
            lemma_find_index_of_present(r.state.peers, pid, i);
        },
    }
}

/// Any single message leaves the room well formed.
pub proof fn lemma_process_message_wf(s: StateView, m: MessageView)
    requires
        wf_peers(s.peers),
    ensures
        wf_peers(spec_process_message(s, m).state.peers),
{
    if m.room_id == s.room_id {
        match m.action {
            ActionView::InitializeRoom { player_ids } => {
                lemma_init_all_wf(s, player_ids);
            },
            ActionView::AnswerReceived { sdp } => {
                let after = spec_answer(s, m.player_id, sdp).state.peers;
                lemma_find_index(s.peers, m.player_id);
                assert forall|a: int, b: int|
                    0 <= a < b < after.len() implies after[a].player_id != after[b].player_id by {
                    assert(after[a].player_id == s.peers[a].player_id);
                    assert(after[b].player_id == s.peers[b].player_id);
                }
            },
            ActionView::IceCandidate { candidate } => {
                let after = spec_ice(s, m.player_id, candidate).state.peers;
                lemma_find_index(s.peers, m.player_id);
                match find_index(s.peers, m.player_id) {
                    None => {
                        assert forall|a: int, b: int|
                            0 <= a < b < after.len() implies after[a].player_id
                            != after[b].player_id by {
                            if b == s.peers.len() {
                                assert(s.peers[a].player_id != m.player_id);
                            } else {
                                assert(after[a].player_id == s.peers[a].player_id);
                                assert(after[b].player_id == s.peers[b].player_id);
                            }
                        }
                    },
                    Some(i) => {
                        assert forall|a: int, b: int|
                            0 <= a < b < after.len() implies after[a].player_id
                            != after[b].player_id by {
                            assert(after[a].player_id == s.peers[a].player_id);
                            assert(after[b].player_id == s.peers[b].player_id);
                        }
                    },
                }
            },
            ActionView::EntityState => {},
        }
    }
}

/// What one message may do to a peer that negotiates or is connected: a
/// negotiating peer keeps its clock exactly where it was unless its answer
/// connects it, and a connected peer stays connected.
pub open spec fn spec_live_outcome(before: PeerView, after: PeerView) -> bool {
    &&& after.player_id == before.player_id
    &&& (before.state == PeerState::Negotiating ==> ((after.state == PeerState::Negotiating
        && after.ticks_negotiating == before.ticks_negotiating) || after.state
        == PeerState::Connected))
    &&& (before.state == PeerState::Connected ==> after.state == PeerState::Connected)
}

/// Initialization never touches the entry of a peer already negotiating or
/// connected: the duplicate is a complete no-op for it.
pub proof fn lemma_init_all_keeps_live(s: StateView, pids: Seq<Seq<char>>, j: int)
    requires
        wf_peers(s.peers),
        0 <= j < s.peers.len(),
        s.peers[j].state == PeerState::Negotiating || s.peers[j].state == PeerState::Connected,
    ensures
        spec_init_all(s, pids).state.peers.len() >= s.peers.len(),
        spec_init_all(s, pids).state.peers[j] == s.peers[j],
    decreases pids.len(),
{
    if pids.len() > 0 {
        let prev = spec_init_all(s, pids.drop_last());
        lemma_init_all_keeps_live(s, pids.drop_last(), j);
        lemma_init_all_wf(s, pids.drop_last());
        lemma_init_all_extends(s, pids.drop_last());
        let pid = pids.last();
        let after = spec_init_one(prev.state, pid).state.peers;
        lemma_find_index(prev.state.peers, pid);
        match find_index(prev.state.peers, pid) {
            None => {
                assert(after[j] == prev.state.peers[j]);
            },
            Some(i) => {
                if prev.state.peers[i].state == PeerState::Uninitialized {
                    assert(i != j);
                    assert(after[j] == prev.state.peers[j]);
                } else {
                }
            },
        }
    }
}

/// One message cannot stall or rewind a live peer: it leaves a negotiating
/// entry's clock alone (or connects it), and leaves a connected entry
/// connected.
pub proof fn lemma_process_message_keeps_live(s: StateView, m: MessageView, j: int)
    requires
        wf_peers(s.peers),
        0 <= j < s.peers.len(),
        s.peers[j].state == PeerState::Negotiating || s.peers[j].state == PeerState::Connected,
    ensures
        spec_process_message(s, m).state.peers.len() >= s.peers.len(),
        spec_live_outcome(s.peers[j], spec_process_message(s, m).state.peers[j]),
{
    lemma_process_message_frame(s, m);
    if m.room_id == s.room_id {
        match m.action {
            ActionView::InitializeRoom { player_ids } => {
                lemma_init_all_keeps_live(s, player_ids, j);
            },
            ActionView::AnswerReceived { sdp } => {
                let after = spec_answer(s, m.player_id, sdp).state.peers;
                lemma_find_index(s.peers, m.player_id);
                match find_index(s.peers, m.player_id) {
                    Some(i) => {
                        if i == j && s.peers[i].state == PeerState::Negotiating {
                            assert(after[j] == spec_connected(s.peers[j], sdp));
                        } else {
                            assert(after[j] == s.peers[j]);
                        }
                    },
                    None => {
                        assert(after[j] == s.peers[j]);
                    },
                }
            },
            ActionView::IceCandidate { candidate } => {
                let after = spec_ice(s, m.player_id, candidate).state.peers;
                lemma_find_index(s.peers, m.player_id);
                match find_index(s.peers, m.player_id) {
                    Some(i) => {
                        if i == j {
                            assert(after[j] == spec_applied(s.peers[j], candidate));
                        } else {
                            assert(after[j] == s.peers[j]);
                        }
                    },
                    None => {
                        assert(after[j] == s.peers[j]);
                    },
                }
            },
            ActionView::EntityState => {},
        }
    }
}

/// A whole batch of messages cannot stall or rewind a live peer either.
pub proof fn lemma_process_all_keeps_live(s: StateView, ms: Seq<MessageView>, j: int)
    requires
        wf_peers(s.peers),
        0 <= j < s.peers.len(),
        s.peers[j].state == PeerState::Negotiating || s.peers[j].state == PeerState::Connected,
    ensures
        wf_peers(spec_process_all(s, ms).state.peers),
        spec_process_all(s, ms).state.peers.len() >= s.peers.len(),
        spec_live_outcome(s.peers[j], spec_process_all(s, ms).state.peers[j]),
    decreases ms.len(),
{
    if ms.len() > 0 {
        let prev = spec_process_all(s, ms.drop_last());
        lemma_process_all_keeps_live(s, ms.drop_last(), j);
        lemma_process_message_keeps_live(prev.state, ms.last(), j);
        lemma_process_message_wf(prev.state, ms.last());
    }
}

/// Law: a waiting peer's clock always moves. Whatever messages a tick
/// brings, a peer that was `Negotiating` before the tick ends it either
/// still `Negotiating` with exactly one more tick on its clock, or
/// `Connected` by its answer, or `Failed` — never with its entry stalled.
/// So a peer that receives no answer is `Failed` after at most
/// `NEGOTIATION_TIMEOUT_TICKS` ticks, and the room keeps running.
pub proof fn law_negotiating_peer_never_stalls(s: StateView, ms: Seq<MessageView>, j: int)
    requires
        wf_peers(s.peers),
        0 <= j < s.peers.len(),
        s.peers[j].state == PeerState::Negotiating,
    ensures
        spec_advance(spec_process_all(s, ms).state).state.peers.len() >= s.peers.len(),
        spec_advance(spec_process_all(s, ms).state).state.peers[j].state
            == PeerState::Negotiating ==> spec_advance(
            spec_process_all(s, ms).state,
        ).state.peers[j].ticks_negotiating == s.peers[j].ticks_negotiating + 1,
        spec_advance(spec_process_all(s, ms).state).state.peers[j].state
            == PeerState::Negotiating || spec_advance(
            spec_process_all(s, ms).state,
        ).state.peers[j].state == PeerState::Connected || spec_advance(
            spec_process_all(s, ms).state,
        ).state.peers[j].state == PeerState::Failed,
{
    lemma_process_all_keeps_live(s, ms, j);
    let folded = spec_process_all(s, ms).state;
    assert(spec_advance(folded).state.peers[j] == spec_tick_peer(folded.peers[j]));
}

/// Law: a negotiation failure for one peer never changes the entry of any
/// other peer in the same room.
pub proof fn law_failure_isolated(s: StateView, pid: Seq<char>, j: int)
    requires
        wf_peers(s.peers),
        0 <= j < s.peers.len(),
        s.peers[j].player_id != pid,
    ensures
        spec_fail_peer(s, pid).state.peers.len() == s.peers.len(),
        spec_fail_peer(s, pid).state.peers[j] == s.peers[j],
{
    match find_index(s.peers, pid) {
        Some(i) => {
            lemma_find_index(s.peers, pid);
            assert(i != j);
        },
        None => {},
    }
}

/// Law: a negotiation timeout fails only the peer that timed out: what
/// happens to each entry in a tick depends on that entry alone.
pub proof fn law_timeout_isolated(s: StateView, j: int)
    requires
        0 <= j < s.peers.len(),
    ensures
        spec_advance(s).state.peers.len() == s.peers.len(),
        spec_advance(s).state.peers[j] == spec_tick_peer(s.peers[j]),
{
}

} // verus!
