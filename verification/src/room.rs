//! The authoritative state of one room and the message-driven step function
//! that drives every peer's negotiation. Each room owns its state
//! exclusively; processing is strictly sequential per room, so no entry is
//! ever observed or mutated concurrently.
//!
//! The whole step is specified by the pure functions `spec_process_message`
//! and `spec_advance`: the executable code returns exactly what they say.

use crate::messages::{
    ClientAction, ClientMessage, MessageView, OutboundMessage, OutboundView, Report, ReportView,
    RoomConfig, ServerSignal,
};
use crate::peer::{
    spec_applied, spec_buffered, spec_closed, spec_connected, spec_failed, spec_flushed,
    spec_new_buffering, spec_new_negotiating, spec_offer_msg, spec_offer_sdp, PeerConnectionEntry,
    PeerState, PeerView,
};
use vstd::prelude::*;

verus! {

/// Ticks a peer may stay in `Negotiating` before its negotiation is treated
/// as timed out (ten seconds at the 60 Hz tick rate).
pub const NEGOTIATION_TIMEOUT_TICKS: u32 = 600;

/// Mathematical value of a [`NetworkState`].
#[verifier::ext_equal]
pub struct StateView {
    pub room_id: Seq<char>,
    pub peers: Seq<PeerView>,
}

/// What one step of the room produces: the state it leaves behind, the
/// outbound messages it generated, and the anomalies it reports.
#[verifier::ext_equal]
pub struct StepView {
    pub state: StateView,
    pub outbound: Seq<OutboundView>,
    pub reports: Seq<ReportView>,
}

/// Peer entries are keyed by player id: no two entries name the same player.
pub open spec fn wf_peers(peers: Seq<PeerView>) -> bool {
    forall|i: int, j: int|
        0 <= i < j < peers.len() ==> peers[i].player_id != peers[j].player_id
}

/// Index of the first entry for `pid`, if any.
pub open spec fn find_index(peers: Seq<PeerView>, pid: Seq<char>) -> Option<int>
    decreases peers.len(),
{
    if peers.len() == 0 {
        None
    } else if peers[0].player_id == pid {
        Some(0int)
    } else {
        match find_index(peers.drop_first(), pid) {
            None => None,
            Some(i) => Some(i + 1),
        }
    }
}

/// `find_index` finds the first entry for `pid`, and `None` means absence.
pub proof fn lemma_find_index(peers: Seq<PeerView>, pid: Seq<char>)
    ensures
        match find_index(peers, pid) {
            Some(i) => 0 <= i < peers.len() && peers[i].player_id == pid && (forall|j: int|
                0 <= j < i ==> peers[j].player_id != pid),
            None => forall|j: int| 0 <= j < peers.len() ==> peers[j].player_id != pid,
        },
    decreases peers.len(),
{
    if peers.len() > 0 && peers[0].player_id != pid {
        let rest = peers.drop_first();
        lemma_find_index(rest, pid);
        match find_index(rest, pid) {
            Some(i) => {
                assert(peers[i + 1].player_id == pid);
                assert forall|j: int| 0 <= j < i + 1 implies peers[j].player_id != pid by {
                    if j > 0 {
                        assert(rest[j - 1].player_id != pid);
                        assert(rest[j - 1] == peers[j]);
                    }
                }
            },
            None => {
                assert forall|j: int| 0 <= j < peers.len() implies peers[j].player_id != pid by {
                    if j > 0 {
                        assert(rest[j - 1].player_id != pid);
                        assert(rest[j - 1] == peers[j]);
                    }
                }
            },
        }
    }
}

/// In a well-formed room an entry holding `pid` is the one `find_index` finds.
pub proof fn lemma_find_index_of_present(peers: Seq<PeerView>, pid: Seq<char>, i: int)
    requires
        wf_peers(peers),
        0 <= i < peers.len(),
        peers[i].player_id == pid,
    ensures
        find_index(peers, pid) == Some(i),
{
    lemma_find_index(peers, pid);
    match find_index(peers, pid) {
        Some(k) => {
            if k < i {
                assert(peers[k].player_id == peers[i].player_id);
            } else if i < k {
                assert(peers[i].player_id != pid);
            }
        },
        None => {
            assert(peers[i].player_id != pid);
        },
    }
}

/// The lifecycle position of `pid` in `s`; a player with no entry is
/// `Uninitialized`.
pub open spec fn peer_state_of(s: StateView, pid: Seq<char>) -> PeerState {
    match find_index(s.peers, pid) {
        None => PeerState::Uninitialized,
        Some(i) => s.peers[i].state,
    }
}

/// The candidates buffered for `pid`, in arrival order; empty if absent.
pub open spec fn peer_pending_of(s: StateView, pid: Seq<char>) -> Seq<Seq<char>> {
    match find_index(s.peers, pid) {
        None => Seq::empty(),
        Some(i) => s.peers[i].pending_ice,
    }
}

/// The candidates applied to `pid`'s connection, in arrival order.
pub open spec fn peer_applied_of(s: StateView, pid: Seq<char>) -> Seq<Seq<char>> {
    match find_index(s.peers, pid) {
        None => Seq::empty(),
        Some(i) => s.peers[i].applied_ice,
    }
}

/// Idempotent initialization of one named player: a player not yet past
/// `Uninitialized` starts negotiating and gets exactly one offer; a player
/// already negotiating or beyond is left alone and the duplicate is reported.
pub open spec fn spec_init_one(s: StateView, pid: Seq<char>) -> StepView {
    match find_index(s.peers, pid) {
        None => StepView {
            state: StateView { room_id: s.room_id, peers: s.peers.push(spec_new_negotiating(pid)) },
            outbound: seq![spec_offer_msg(s.room_id, pid)],
            reports: Seq::empty(),
        },
        Some(i) => {
            if s.peers[i].state == PeerState::Uninitialized {
                StepView {
                    state: StateView {
                        room_id: s.room_id,
                        peers: s.peers.update(i, spec_flushed(s.peers[i])),
                    },
                    outbound: seq![spec_offer_msg(s.room_id, pid)],
                    reports: Seq::empty(),
                }
            } else {
                StepView {
                    state: s,
                    outbound: Seq::empty(),
                    reports: seq![ReportView::DuplicateInitialization { player_id: pid }],
                }
            }
        },
    }
}

/// Initialization of every named player, in the order named.
pub open spec fn spec_init_all(s: StateView, pids: Seq<Seq<char>>) -> StepView
    decreases pids.len(),
{
    if pids.len() == 0 {
        StepView { state: s, outbound: Seq::empty(), reports: Seq::empty() }
    } else {
        let prev = spec_init_all(s, pids.drop_last());
        let last = spec_init_one(prev.state, pids.last());
        StepView {
            state: last.state,
            outbound: prev.outbound + last.outbound,
            reports: prev.reports + last.reports,
        }
    }
}

/// The entries of `before` survive into `after`, in place and under their
/// player ids: the roster only grows, never shrinks or reorders.
pub open spec fn peers_extend(before: Seq<PeerView>, after: Seq<PeerView>) -> bool {
    &&& after.len() >= before.len()
    &&& forall|j: int| 0 <= j < before.len() ==> after[j].player_id == before[j].player_id
}

/// Roster extension composes.
pub proof fn lemma_peers_extend_trans(a: Seq<PeerView>, b: Seq<PeerView>, c: Seq<PeerView>)
    requires
        peers_extend(a, b),
        peers_extend(b, c),
    ensures
        peers_extend(a, c),
{
}

/// Initializing one player only appends an entry or rewrites one in place.
pub proof fn lemma_init_one_extends(s: StateView, pid: Seq<char>)
    ensures
        peers_extend(s.peers, spec_init_one(s, pid).state.peers),
{
    let after = spec_init_one(s, pid).state.peers;
    match find_index(s.peers, pid) {
        None => {
            assert(after == s.peers.push(spec_new_negotiating(pid)));
            assert forall|j: int| 0 <= j < s.peers.len() implies after[j].player_id
                == s.peers[j].player_id by {
                assert(after[j] == s.peers[j]);
            }
        },
        Some(i) => {
            lemma_find_index(s.peers, pid);
            assert forall|j: int| 0 <= j < s.peers.len() implies after[j].player_id
                == s.peers[j].player_id by {
                if s.peers[i].state == PeerState::Uninitialized && j == i {
                    assert(after[i] == spec_flushed(s.peers[i]));
                } else if s.peers[i].state == PeerState::Uninitialized {
                    assert(after[j] == s.peers[j]);
                } else {
                    assert(after[j] == s.peers[j]);
                }
            }
        },
    }
}

/// Initializing any list of players only grows the roster.
pub proof fn lemma_init_all_extends(s: StateView, pids: Seq<Seq<char>>)
    ensures
        peers_extend(s.peers, spec_init_all(s, pids).state.peers),
    decreases pids.len(),
{
    if pids.len() > 0 {
        let prev = spec_init_all(s, pids.drop_last());
        lemma_init_all_extends(s, pids.drop_last());
        lemma_init_one_extends(prev.state, pids.last());
        lemma_peers_extend_trans(
            s.peers,
            prev.state.peers,
            spec_init_one(prev.state, pids.last()).state.peers,
        );
    }
}

/// Initialization never renames the room.
pub proof fn lemma_init_all_room_id(s: StateView, pids: Seq<Seq<char>>)
    ensures
        spec_init_all(s, pids).state.room_id == s.room_id,
    decreases pids.len(),
{
    if pids.len() > 0 {
        lemma_init_all_room_id(s, pids.drop_last());
    }
}

/// An `EntityState` action: the payload is outside the room's concern, but a
/// player never initialized here is a reported anomaly.
pub open spec fn spec_entity(s: StateView, pid: Seq<char>) -> StepView {
    StepView {
        state: s,
        outbound: Seq::empty(),
        reports: if peer_state_of(s, pid) == PeerState::Uninitialized {
            seq![ReportView::UnknownPeer { player_id: pid }]
        } else {
            Seq::empty()
        },
    }
}

/// The player's answer: `Negotiating -> Connected`; an answer from a player
/// never initialized is a reported anomaly; any other state ignores it.
pub open spec fn spec_answer(s: StateView, pid: Seq<char>, sdp: Seq<char>) -> StepView {
    match find_index(s.peers, pid) {
        None => StepView {
            state: s,
            outbound: Seq::empty(),
            reports: seq![ReportView::UnknownPeer { player_id: pid }],
        },
        Some(i) => {
            if s.peers[i].state == PeerState::Uninitialized {
                StepView {
                    state: s,
                    outbound: Seq::empty(),
                    reports: seq![ReportView::UnknownPeer { player_id: pid }],
                }
            } else if s.peers[i].state == PeerState::Negotiating {
                StepView {
                    state: StateView {
                        room_id: s.room_id,
                        peers: s.peers.update(i, spec_connected(s.peers[i], sdp)),
                    },
                    outbound: Seq::empty(),
                    reports: Seq::empty(),
                }
            } else {
                StepView { state: s, outbound: Seq::empty(), reports: Seq::empty() }
            }
        },
    }
}

/// An ICE candidate: buffered while the peer is `Uninitialized` (creating the
/// entry if the candidate outran `InitializeRoom`), applied at once while
/// `Negotiating` or `Connected`, and discarded once `Closed` or `Failed`.
pub open spec fn spec_ice(s: StateView, pid: Seq<char>, c: Seq<char>) -> StepView {
    let peers = match find_index(s.peers, pid) {
        None => s.peers.push(spec_new_buffering(pid, c)),
        Some(i) => {
            if s.peers[i].state == PeerState::Uninitialized {
                s.peers.update(i, spec_buffered(s.peers[i], c))
            } else if s.peers[i].state == PeerState::Negotiating || s.peers[i].state
                == PeerState::Connected {
                s.peers.update(i, spec_applied(s.peers[i], c))
            } else {
                s.peers
            }
        },
    };
    StepView {
        state: StateView { room_id: s.room_id, peers: peers },
        outbound: Seq::empty(),
        reports: Seq::empty(),
    }
}

/// One whole message: a `room_id` mismatch is a routing error and mutates
/// nothing; otherwise the action is dispatched as above.
pub open spec fn spec_process_message(s: StateView, m: MessageView) -> StepView {
    if m.room_id != s.room_id {
        StepView {
            state: s,
            outbound: Seq::empty(),
            reports: seq![ReportView::RoutingError { room_id: m.room_id }],
        }
    } else {
        match m.action {
            crate::messages::ActionView::EntityState => spec_entity(s, m.player_id),
            crate::messages::ActionView::InitializeRoom { player_ids } => spec_init_all(
                s,
                player_ids,
            ),
            crate::messages::ActionView::AnswerReceived { sdp } => spec_answer(s, m.player_id, sdp),
            crate::messages::ActionView::IceCandidate { candidate } => spec_ice(
                s,
                m.player_id,
                candidate,
            ),
        }
    }
}

/// No message ever renames the room, and no message ever removes, reorders
/// or renames a peer entry: only new entries appear, and existing ones are
/// rewritten in place.
pub proof fn lemma_process_message_frame(s: StateView, m: MessageView)
    ensures
        spec_process_message(s, m).state.room_id == s.room_id,
        peers_extend(s.peers, spec_process_message(s, m).state.peers),
{
    if m.room_id == s.room_id {
        match m.action {
            crate::messages::ActionView::InitializeRoom { player_ids } => {
                lemma_init_all_room_id(s, player_ids);
                lemma_init_all_extends(s, player_ids);
            },
            crate::messages::ActionView::AnswerReceived { sdp } => {
                let after = spec_answer(s, m.player_id, sdp).state.peers;
                lemma_find_index(s.peers, m.player_id);
                assert(after.len() >= s.peers.len());
                assert forall|j: int| 0 <= j < s.peers.len() implies after[j].player_id
                    == s.peers[j].player_id by {
                    lemma_find_index(s.peers, m.player_id);
                    match find_index(s.peers, m.player_id) {
                        Some(i) => {
                            if j == i && s.peers[i].state == PeerState::Negotiating {
                                assert(after[i] == spec_connected(s.peers[i], sdp));
                            } else {
                                assert(after[j] == s.peers[j]);
                            }
                        },
                        None => {
                            assert(after[j] == s.peers[j]);
                        },
                    }
                }
            },
            crate::messages::ActionView::IceCandidate { candidate } => {
                let after = spec_ice(s, m.player_id, candidate).state.peers;
                lemma_find_index(s.peers, m.player_id);
                assert(after.len() >= s.peers.len());
                assert forall|j: int| 0 <= j < s.peers.len() implies after[j].player_id
                    == s.peers[j].player_id by {
                    lemma_find_index(s.peers, m.player_id);
                    match find_index(s.peers, m.player_id) {
                        Some(i) => {
                            if j == i {
                                if s.peers[i].state == PeerState::Uninitialized {
                                    assert(after[i] == spec_buffered(s.peers[i], candidate));
                                } else if s.peers[i].state == PeerState::Negotiating
                                    || s.peers[i].state == PeerState::Connected {
                                    assert(after[i] == spec_applied(s.peers[i], candidate));
                                } else {
                                    assert(after[j] == s.peers[j]);
                                }
                            } else {
                                assert(after[j] == s.peers[j]);
                            }
                        },
                        None => {
                            assert(after[j] == s.peers[j]);
                        },
                    }
                }
            },
            crate::messages::ActionView::EntityState => {},
        }
    }
}

/// A whole batch of inbound messages, processed in arrival order: the state
/// threads through, the outbound messages and reports concatenate.
pub open spec fn spec_process_all(s: StateView, ms: Seq<MessageView>) -> StepView
    decreases ms.len(),
{
    if ms.len() == 0 {
        StepView { state: s, outbound: Seq::empty(), reports: Seq::empty() }
    } else {
        let prev = spec_process_all(s, ms.drop_last());
        let last = spec_process_message(prev.state, ms.last());
        StepView {
            state: last.state,
            outbound: prev.outbound + last.outbound,
            reports: prev.reports + last.reports,
        }
    }
}

/// Whether one more tick in `Negotiating` reaches the per-peer deadline.
pub open spec fn spec_times_out(p: PeerView) -> bool {
    p.state == PeerState::Negotiating && p.ticks_negotiating + 1 >= NEGOTIATION_TIMEOUT_TICKS
}

/// One tick of waiting for one peer: a negotiating peer either times out and
/// fails, or simply waits one tick longer; every other peer is untouched.
pub open spec fn spec_tick_peer(p: PeerView) -> PeerView {
    if p.state == PeerState::Negotiating {
        if spec_times_out(p) {
            spec_failed(p)
        } else {
            PeerView {
                player_id: p.player_id,
                state: p.state,
                pending_ice: p.pending_ice,
                applied_ice: p.applied_ice,
                answer_sdp: p.answer_sdp,
                ticks_negotiating: (p.ticks_negotiating + 1) as u32,
            }
        }
    } else {
        p
    }
}

/// The timeout reports of one tick, in entry order.
pub open spec fn spec_timeout_reports(peers: Seq<PeerView>) -> Seq<ReportView>
    decreases peers.len(),
{
    if peers.len() == 0 {
        Seq::empty()
    } else {
        spec_timeout_reports(peers.drop_last()) + if spec_times_out(peers.last()) {
            seq![ReportView::NegotiationFailed { player_id: peers.last().player_id }]
        } else {
            Seq::empty()
        }
    }
}

/// One tick of waiting for the whole room.
pub open spec fn spec_advance(s: StateView) -> StepView {
    StepView {
        state: StateView {
            room_id: s.room_id,
            peers: Seq::new(s.peers.len(), |i: int| spec_tick_peer(s.peers[i])),
        },
        outbound: Seq::empty(),
        reports: spec_timeout_reports(s.peers),
    }
}

/// A negotiation failure reported for one peer by the underlying transport:
/// `Negotiating | Connected -> Failed`; every other peer is untouched, and
/// any other state ignores it.
pub open spec fn spec_fail_peer(s: StateView, pid: Seq<char>) -> StepView {
    match find_index(s.peers, pid) {
        Some(i) => {
            if s.peers[i].state == PeerState::Negotiating || s.peers[i].state
                == PeerState::Connected {
                StepView {
                    state: StateView {
                        room_id: s.room_id,
                        peers: s.peers.update(i, spec_failed(s.peers[i])),
                    },
                    outbound: Seq::empty(),
                    reports: seq![ReportView::NegotiationFailed { player_id: pid }],
                }
            } else {
                StepView { state: s, outbound: Seq::empty(), reports: Seq::empty() }
            }
        },
        None => StepView { state: s, outbound: Seq::empty(), reports: Seq::empty() },
    }
}

/// An explicit disconnect: `Connected -> Closed`; any other state ignores it.
pub open spec fn spec_disconnect(s: StateView, pid: Seq<char>) -> StateView {
    match find_index(s.peers, pid) {
        Some(i) => {
            if s.peers[i].state == PeerState::Connected {
                StateView { room_id: s.room_id, peers: s.peers.update(i, spec_closed(s.peers[i])) }
            } else {
                s
            }
        },
        None => s,
    }
}

/// Room teardown for one peer: every in-flight or live connection is closed
/// and its buffered candidates released; a failed peer stays failed.
pub open spec fn spec_teardown_peer(p: PeerView) -> PeerView {
    if p.state == PeerState::Failed {
        spec_failed(p)
    } else {
        spec_closed(p)
    }
}

/// Room teardown: cancels all in-flight negotiations and releases resources.
pub open spec fn spec_close_all(s: StateView) -> StateView {
    StateView {
        room_id: s.room_id,
        peers: Seq::new(s.peers.len(), |i: int| spec_teardown_peer(s.peers[i])),
    }
}

/// The authoritative map of player id to peer entry for one room, with the
/// room's own id. Owned exclusively by the room's runtime.
#[derive(Debug)]
pub struct NetworkState {
    /// UUID of the room this state belongs to.
    pub room_id: String,
    /// One entry per player, keyed by `player_id`.
    pub peers: Vec<PeerConnectionEntry>,
}

/// What processing returns to the caller: the outbound signaling messages
/// generated, and the anomalies to report.
pub struct StepOutput {
    pub outbound: Vec<OutboundMessage>,
    pub reports: Vec<Report>,
}

impl View for NetworkState {
    type V = StateView;

    open spec fn view(&self) -> StateView {
        StateView { room_id: self.room_id@, peers: self.peers.deep_view() }
    }
}

impl NetworkState {
    /// No two entries name the same player.
    pub open spec fn wf(&self) -> bool {
        wf_peers(self@.peers)
    }

    /// A fresh room with no peers, bound to the host-chosen room id.
    pub fn new(config: RoomConfig) -> (r: NetworkState)
        ensures
            r.wf(),
            r@.room_id == config.room_id@,
            r@.peers.len() == 0,
    {
        let r = NetworkState { room_id: config.room_id, peers: Vec::new() };
        proof {
            assert(r@.peers =~= Seq::<PeerView>::empty());
        }
        r
    }

    /// Index of the entry for `player_id`, if the player has one.
    pub fn find_peer_index(&self, player_id: &String) -> (r: Option<usize>)
        ensures
            match r {
                Some(i) => find_index(self@.peers, player_id@) == Some(i as int),
                None => find_index(self@.peers, player_id@) is None,
            },
    {
        let n = self.peers.len();
        let mut i: usize = 0;
        while i < n
            invariant
                n == self.peers.len(),
                i <= n,
                forall|j: int| 0 <= j < i ==> self@.peers[j].player_id != player_id@,
            decreases n - i,
        {
            if self.peers[i].player_id == *player_id {
                proof {
                    lemma_find_index(self@.peers, player_id@);
                    match find_index(self@.peers, player_id@) {
                        Some(k) => {
                            if k < i {
                                assert(self@.peers[k].player_id != player_id@);
                            } else if i < k {
                                assert(self@.peers[i as int].player_id != player_id@);
                            }
                        },
                        None => {
                            assert(self@.peers[i as int].player_id != player_id@);
                        },
                    }
                }
                return Some(i);
            }
            i += 1;
        }
        proof {
            lemma_find_index(self@.peers, player_id@);
        }
        None
    }

    /// The lifecycle position of `player_id` in this room; a player with no
    /// entry is `Uninitialized`.
    pub fn peer_state(&self, player_id: &String) -> (r: PeerState)
        ensures
            r == peer_state_of(self@, player_id@),
    {
        match self.find_peer_index(player_id) {
            Some(i) => {
                proof {
                    lemma_find_index(self@.peers, player_id@);
                }
                self.peers[i].state
            },
            None => PeerState::Uninitialized,
        }
    }

    /// Dispatch of an `EntityState` action: no connection-state change; a
    /// player never initialized here is a reported anomaly.
    fn handle_entity(&self, player_id: &String, reports: &mut Vec<Report>)
        ensures
            final(reports).deep_view() == old(reports).deep_view() + spec_entity(
                self@,
                player_id@,
            ).reports,
    {
        let ghost r0 = reports.deep_view();
        let st = self.peer_state(player_id);
        if st == PeerState::Uninitialized {
            reports.push(Report::UnknownPeer { player_id: player_id.clone() });
            proof {
                assert(reports.deep_view() =~= r0 + seq![
                    ReportView::UnknownPeer { player_id: player_id@ },
                ]);
            }
        } else {
            proof {
                assert(reports.deep_view() =~= r0 + Seq::<ReportView>::empty());
            }
        }
    }

    /// Dispatch of an `AnswerReceived` action: `Negotiating -> Connected`.
    fn handle_answer(&mut self, player_id: &String, sdp: String, reports: &mut Vec<Report>)
        requires
            old(self).wf(),
        ensures
            final(self).wf(),
            final(self)@ == spec_answer(old(self)@, player_id@, sdp@).state,
            final(reports).deep_view() == old(reports).deep_view() + spec_answer(
                old(self)@,
                player_id@,
                sdp@,
            ).reports,
    {
        let ghost s0 = self@;
        let ghost r0 = reports.deep_view();
        match self.find_peer_index(player_id) {
            Some(i) => {
                proof {
                    lemma_find_index(s0.peers, player_id@);
                    assert(self@.peers[i as int] == self.peers@[i as int]@);
                }
                let st = self.peers[i].state;
                if st == PeerState::Negotiating {
                    let e = &mut self.peers[i];
                    e.state = PeerState::Connected;
                    e.answer_sdp = Some(sdp);
                    e.ticks_negotiating = 0;
                    proof {
                        assert(self@.peers =~~= s0.peers.update(
                            i as int,
                            spec_connected(s0.peers[i as int], sdp@),
                        ));
                        assert(reports.deep_view() =~= r0 + Seq::<ReportView>::empty());
                        assert forall|a: int, b: int|
                            0 <= a < b < self@.peers.len() implies self@.peers[a].player_id
                            != self@.peers[b].player_id by {
                            assert(self@.peers[a].player_id == s0.peers[a].player_id);
                            assert(self@.peers[b].player_id == s0.peers[b].player_id);
                        }
                    }
                } else if st == PeerState::Uninitialized {
                    reports.push(Report::UnknownPeer { player_id: player_id.clone() });
                    proof {
                        assert(reports.deep_view() =~= r0 + seq![
                            ReportView::UnknownPeer { player_id: player_id@ },
                        ]);
                    }
                } else {
                    proof {
                        assert(reports.deep_view() =~= r0 + Seq::<ReportView>::empty());
                    }
                }
            },
            None => {
                reports.push(Report::UnknownPeer { player_id: player_id.clone() });
                proof {
                    assert(reports.deep_view() =~= r0 + seq![
                        ReportView::UnknownPeer { player_id: player_id@ },
                    ]);
                }
            },
        }
    }

    /// Dispatch of an `IceCandidate` action: buffered, applied or discarded
    /// depending on where the peer stands.
    fn handle_ice(&mut self, player_id: &String, candidate: String)
        requires
            old(self).wf(),
        ensures
            final(self).wf(),
            final(self)@ == spec_ice(old(self)@, player_id@, candidate@).state,
    {
        let ghost s0 = self@;
        match self.find_peer_index(player_id) {
            Some(i) => {
                proof {
                    lemma_find_index(s0.peers, player_id@);
                    assert(self@.peers[i as int] == self.peers@[i as int]@);
                }
                let st = self.peers[i].state;
                if st == PeerState::Uninitialized {
                    let e = &mut self.peers[i];
                    e.pending_ice.push(candidate);
                    proof {
                        assert(self@.peers =~~= s0.peers.update(
                            i as int,
                            spec_buffered(s0.peers[i as int], candidate@),
                        ));
                    }
                } else if st == PeerState::Negotiating || st == PeerState::Connected {
                    let e = &mut self.peers[i];
                    e.applied_ice.push(candidate);
                    proof {
                        assert(self@.peers =~~= s0.peers.update(
                            i as int,
                            spec_applied(s0.peers[i as int], candidate@),
                        ));
                    }
                } else {
                    proof {
                        assert(self@.peers =~~= s0.peers);
                    }
                }
                proof {
                    assert forall|a: int, b: int|
                        0 <= a < b < self@.peers.len() implies self@.peers[a].player_id
                        != self@.peers[b].player_id by {
                        assert(self@.peers[a].player_id == s0.peers[a].player_id);
                        assert(self@.peers[b].player_id == s0.peers[b].player_id);
                    }
                }
            },
            None => {
                let entry = PeerConnectionEntry {
                    player_id: player_id.clone(),
                    state: PeerState::Uninitialized,
                    pending_ice: vec![candidate],
                    applied_ice: Vec::new(),
                    answer_sdp: None,
                    ticks_negotiating: 0,
                };
                proof {
                    lemma_find_index(s0.peers, player_id@);
                    assert(entry@ =~~= spec_new_buffering(player_id@, candidate@)) by {
                        assert(entry.pending_ice.deep_view() =~= seq![candidate@]);
                        assert(entry.applied_ice.deep_view() =~= Seq::<Seq<char>>::empty());
                    }
                }
                self.peers.push(entry);
                proof {
                    assert(self@.peers =~~= s0.peers.push(
                        spec_new_buffering(player_id@, candidate@),
                    ));
                    assert forall|a: int, b: int|
                        0 <= a < b < self@.peers.len() implies self@.peers[a].player_id
                        != self@.peers[b].player_id by {
                        if b == s0.peers.len() {
                            assert(self@.peers[a].player_id == s0.peers[a].player_id);
                            assert(s0.peers[a].player_id != player_id@);
                        } else {
                            assert(self@.peers[a].player_id == s0.peers[a].player_id);
                            assert(self@.peers[b].player_id == s0.peers[b].player_id);
                        }
                    }
                }
            },
        }
    }

    /// Idempotent initialization of one named player, appending the generated
    /// offer and any duplicate report to the caller's accumulators.
    fn init_peer(
        &mut self,
        player_id: &String,
        outbound: &mut Vec<OutboundMessage>,
        reports: &mut Vec<Report>,
    )
        requires
            old(self).wf(),
        ensures
            final(self).wf(),
            final(self)@ == spec_init_one(old(self)@, player_id@).state,
            final(outbound).deep_view() == old(outbound).deep_view() + spec_init_one(
                old(self)@,
                player_id@,
            ).outbound,
            final(reports).deep_view() == old(reports).deep_view() + spec_init_one(
                old(self)@,
                player_id@,
            ).reports,
    {
        let ghost s0 = self@;
        let ghost o0 = outbound.deep_view();
        let ghost r0 = reports.deep_view();
        match self.find_peer_index(player_id) {
            Some(i) => {
                proof {
                    lemma_find_index(s0.peers, player_id@);
                    assert(self@.peers[i as int] == self.peers@[i as int]@);
                }
                let st = self.peers[i].state;
                if st == PeerState::Uninitialized {
                    let sdp = make_offer_sdp(&self.room_id, player_id);
                    let msg = OutboundMessage {
                        room_id: self.room_id.clone(),
                        target_player_id: player_id.clone(),
                        signal: ServerSignal::SendOffer { sdp },
                    };
                    let e = &mut self.peers[i];
                    e.state = PeerState::Negotiating;
                    e.ticks_negotiating = 0;
                    e.applied_ice.append(&mut e.pending_ice);
                    outbound.push(msg);
                    proof {
                        assert(self@.peers =~~= s0.peers.update(
                            i as int,
                            spec_flushed(s0.peers[i as int]),
                        ));
                        assert(outbound.deep_view() =~= o0 + seq![
                            spec_offer_msg(s0.room_id, player_id@),
                        ]);
                        assert(reports.deep_view() =~= r0 + Seq::<ReportView>::empty());
                        assert forall|a: int, b: int|
                            0 <= a < b < self@.peers.len() implies self@.peers[a].player_id
                            != self@.peers[b].player_id by {
                            assert(self@.peers[a].player_id == s0.peers[a].player_id);
                            assert(self@.peers[b].player_id == s0.peers[b].player_id);
                        }
                    }
                } else {
                    reports.push(Report::DuplicateInitialization { player_id: player_id.clone() });
                    proof {
                        assert(reports.deep_view() =~= r0 + seq![
                            ReportView::DuplicateInitialization { player_id: player_id@ },
                        ]);
                        assert(outbound.deep_view() =~= o0 + Seq::<OutboundView>::empty());
                    }
                }
            },
            None => {
                let sdp = make_offer_sdp(&self.room_id, player_id);
                let msg = OutboundMessage {
                    room_id: self.room_id.clone(),
                    target_player_id: player_id.clone(),
                    signal: ServerSignal::SendOffer { sdp },
                };
                let entry = PeerConnectionEntry {
                    player_id: player_id.clone(),
                    state: PeerState::Negotiating,
                    pending_ice: Vec::new(),
                    applied_ice: Vec::new(),
                    answer_sdp: None,
                    ticks_negotiating: 0,
                };
                proof {
                    lemma_find_index(s0.peers, player_id@);
                    assert(entry@ =~~= spec_new_negotiating(player_id@)) by {
                        assert(entry.pending_ice.deep_view() =~= Seq::<Seq<char>>::empty());
                        assert(entry.applied_ice.deep_view() =~= Seq::<Seq<char>>::empty());
                    }
                }
                self.peers.push(entry);
                outbound.push(msg);
                proof {
                    assert(self@.peers =~~= s0.peers.push(spec_new_negotiating(player_id@)));
                    assert(outbound.deep_view() =~= o0 + seq![
                        spec_offer_msg(s0.room_id, player_id@),
                    ]);
                    assert(reports.deep_view() =~= r0 + Seq::<ReportView>::empty());
                    assert forall|a: int, b: int|
                        0 <= a < b < self@.peers.len() implies self@.peers[a].player_id
                        != self@.peers[b].player_id by {
                        if b == s0.peers.len() {
                            assert(self@.peers[a].player_id == s0.peers[a].player_id);
                            assert(s0.peers[a].player_id != player_id@);
                        } else {
                            assert(self@.peers[a].player_id == s0.peers[a].player_id);
                            assert(self@.peers[b].player_id == s0.peers[b].player_id);
                        }
                    }
                }
            },
        }
    }

    /// Idempotent initialization of every player named by `InitializeRoom`,
    /// in the order named.
    fn init_players(
        &mut self,
        player_ids: &Vec<String>,
        outbound: &mut Vec<OutboundMessage>,
        reports: &mut Vec<Report>,
    )
        requires
            old(self).wf(),
        ensures
            final(self).wf(),
            final(self)@ == spec_init_all(old(self)@, player_ids.deep_view()).state,
            final(outbound).deep_view() == old(outbound).deep_view() + spec_init_all(
                old(self)@,
                player_ids.deep_view(),
            ).outbound,
            final(reports).deep_view() == old(reports).deep_view() + spec_init_all(
                old(self)@,
                player_ids.deep_view(),
            ).reports,
    {
        let ghost s0 = self@;
        let ghost o0 = outbound.deep_view();
        let ghost r0 = reports.deep_view();
        let ghost pids = player_ids.deep_view();
        let n = player_ids.len();
        proof {
            assert(pids.take(0) =~= Seq::<Seq<char>>::empty());
            assert(o0 + Seq::<OutboundView>::empty() =~= o0);
            assert(r0 + Seq::<ReportView>::empty() =~= r0);
        }
        let mut k: usize = 0;
        while k < n
            invariant
                n == player_ids.len(),
                pids == player_ids.deep_view(),
                k <= n,
                self.wf(),
                self@ == spec_init_all(s0, pids.take(k as int)).state,
                outbound.deep_view() == o0 + spec_init_all(s0, pids.take(k as int)).outbound,
                reports.deep_view() == r0 + spec_init_all(s0, pids.take(k as int)).reports,
            decreases n - k,
        {
            let ghost prev = spec_init_all(s0, pids.take(k as int));
            let ghost pid = pids[k as int];
            proof {
                assert(player_ids@[k as int]@ == pids[k as int]);
            }
            self.init_peer(&player_ids[k], outbound, reports);
            proof {
                let step = spec_init_one(prev.state, pid);
                assert(pids.take(k + 1).drop_last() =~= pids.take(k as int));
                assert(pids.take(k + 1).last() == pid);
                assert(spec_init_all(s0, pids.take(k + 1)).state == step.state);
                assert(outbound.deep_view() =~= o0 + (prev.outbound + step.outbound));
                assert(reports.deep_view() =~= r0 + (prev.reports + step.reports));
            }
            k += 1;
        }
        proof {
            assert(pids.take(n as int) =~= pids);
        }
    }

    /// One whole inbound message, validated and dispatched. Returns the
    /// outbound signaling messages generated and the anomalies to report:
    /// exactly what `spec_process_message` says, no more and no less.
    pub fn process_message(&mut self, msg: ClientMessage) -> (out: StepOutput)
        requires
            old(self).wf(),
        ensures
            final(self).wf(),
            final(self)@ == spec_process_message(old(self)@, msg@).state,
            out.outbound.deep_view() == spec_process_message(old(self)@, msg@).outbound,
            out.reports.deep_view() == spec_process_message(old(self)@, msg@).reports,
    {
        let mut outbound: Vec<OutboundMessage> = Vec::new();
        let mut reports: Vec<Report> = Vec::new();
        proof {
            assert(outbound.deep_view() =~= Seq::<OutboundView>::empty());
            assert(reports.deep_view() =~= Seq::<ReportView>::empty());
        }
        let ClientMessage { player_id, room_id, action } = msg;
        if !(room_id == self.room_id) {
            reports.push(Report::RoutingError { room_id });
            proof {
                assert(reports.deep_view() =~= seq![ReportView::RoutingError { room_id: msg@.room_id }]);
            }
        } else {
            match action {
                ClientAction::EntityState => {
                    self.handle_entity(&player_id, &mut reports);
                },
                ClientAction::InitializeRoom { player_ids } => {
                    self.init_players(&player_ids, &mut outbound, &mut reports);
                },
                ClientAction::AnswerReceived { sdp } => {
                    self.handle_answer(&player_id, sdp, &mut reports);
                },
                ClientAction::IceCandidate { candidate } => {
                    self.handle_ice(&player_id, candidate);
                },
            }
        }
        StepOutput { outbound, reports }
    }

    /// One tick of waiting: every negotiating peer either times out — it
    /// fails and is reported — or waits one tick longer. No other peer is
    /// touched; a failure for one peer never changes another.
    pub fn advance_ticks(&mut self, reports: &mut Vec<Report>)
        requires
            old(self).wf(),
        ensures
            final(self).wf(),
            final(self)@ == spec_advance(old(self)@).state,
            final(reports).deep_view() == old(reports).deep_view() + spec_advance(
                old(self)@,
            ).reports,
    {
        let ghost s0 = self@;
        let ghost r0 = reports.deep_view();
        let n = self.peers.len();
        proof {
            assert(s0.peers.take(0) =~= Seq::<PeerView>::empty());
            assert(r0 + Seq::<ReportView>::empty() =~= r0);
        }
        let mut i: usize = 0;
        while i < n
            invariant
                n == self.peers.len(),
                i <= n,
                s0.peers.len() == n,
                self@.room_id == s0.room_id,
                forall|j: int| 0 <= j < i ==> self@.peers[j] == spec_tick_peer(s0.peers[j]),
                forall|j: int| i <= j < n ==> self@.peers[j] == s0.peers[j],
                reports.deep_view() == r0 + spec_timeout_reports(s0.peers.take(i as int)),
            decreases n - i,
        {
            let ghost reps_before = spec_timeout_reports(s0.peers.take(i as int));
            proof {
                assert(self@.peers[i as int] == self.peers@[i as int]@);
            }
            let st = self.peers[i].state;
            if st == PeerState::Negotiating {
                if self.peers[i].ticks_negotiating >= NEGOTIATION_TIMEOUT_TICKS - 1 {
                    let pid = self.peers[i].player_id.clone();
                    proof {
                        assert(pid@ == s0.peers[i as int].player_id);
                    }
                    let e = &mut self.peers[i];
                    e.state = PeerState::Failed;
                    e.ticks_negotiating = 0;
                    e.pending_ice.clear();
                    let ghost rb = reports.deep_view();
                    let rep = Report::NegotiationFailed { player_id: pid };
                    let ghost rv = rep@;
                    reports.push(rep);
                    proof {
                        assert(self@.peers[i as int] =~~= spec_failed(s0.peers[i as int])) by {
                            assert(self.peers@[i as int].pending_ice.deep_view() =~= Seq::<
                                Seq<char>,
                            >::empty());
                        }
                        assert(rv == ReportView::NegotiationFailed {
                            player_id: s0.peers[i as int].player_id,
                        });
                        assert(reports.deep_view() =~~= rb.push(rv));
                        assert(rb.push(rv) =~~= r0 + (reps_before + seq![rv]));
                        assert(reports.deep_view() =~~= r0 + (reps_before + seq![
                            ReportView::NegotiationFailed { player_id: s0.peers[i as int].player_id },
                        ]));
                    }
                } else {
                    let e = &mut self.peers[i];
                    e.ticks_negotiating = e.ticks_negotiating + 1;
                    proof {
                        assert(self@.peers[i as int] =~~= spec_tick_peer(s0.peers[i as int]));
                        assert(reports.deep_view() =~= r0 + (reps_before + Seq::<
                            ReportView,
                        >::empty()));
                    }
                }
            } else {
                proof {
                    assert(spec_tick_peer(s0.peers[i as int]) == s0.peers[i as int]);
                    assert(reports.deep_view() =~= r0 + (reps_before + Seq::<ReportView>::empty()));
                }
            }
            proof {
                assert(s0.peers.take(i + 1).drop_last() =~= s0.peers.take(i as int));
                assert(s0.peers.take(i + 1).last() == s0.peers[i as int]);
            }
            i += 1;
        }
        proof {
            assert(s0.peers.take(n as int) =~= s0.peers);
            assert(self@.peers =~~= Seq::new(s0.peers.len(), |j: int| spec_tick_peer(s0.peers[j])));
            assert forall|a: int, b: int|
                0 <= a < b < self@.peers.len() implies self@.peers[a].player_id
                != self@.peers[b].player_id by {
                assert(self@.peers[a].player_id == s0.peers[a].player_id);
                assert(self@.peers[b].player_id == s0.peers[b].player_id);
            }
        }
    }

    /// A transport-reported negotiation failure for one peer:
    /// `Negotiating | Connected -> Failed`, reported; no other peer changes.
    pub fn fail_peer(&mut self, player_id: &String) -> (r: Option<Report>)
        requires
            old(self).wf(),
        ensures
            final(self).wf(),
            final(self)@ == spec_fail_peer(old(self)@, player_id@).state,
            match r {
                Some(rep) => spec_fail_peer(old(self)@, player_id@).reports == seq![rep@],
                None => spec_fail_peer(old(self)@, player_id@).reports
                    == Seq::<ReportView>::empty(),
            },
    {
        let ghost s0 = self@;
        match self.find_peer_index(player_id) {
            Some(i) => {
                proof {
                    lemma_find_index(s0.peers, player_id@);
                    assert(self@.peers[i as int] == self.peers@[i as int]@);
                }
                let st = self.peers[i].state;
                if st == PeerState::Negotiating || st == PeerState::Connected {
                    let e = &mut self.peers[i];
                    e.state = PeerState::Failed;
                    e.ticks_negotiating = 0;
                    e.pending_ice.clear();
                    proof {
                        assert(self@.peers[i as int] =~~= spec_failed(s0.peers[i as int])) by {
                            assert(self.peers@[i as int].pending_ice.deep_view() =~= Seq::<
                                Seq<char>,
                            >::empty());
                        }
                        assert(self@.peers =~~= s0.peers.update(
                            i as int,
                            spec_failed(s0.peers[i as int]),
                        ));
                        assert forall|a: int, b: int|
                            0 <= a < b < self@.peers.len() implies self@.peers[a].player_id
                            != self@.peers[b].player_id by {
                            assert(self@.peers[a].player_id == s0.peers[a].player_id);
                            assert(self@.peers[b].player_id == s0.peers[b].player_id);
                        }
                    }
                    Some(Report::NegotiationFailed { player_id: player_id.clone() })
                } else {
                    None
                }
            },
            None => None,
        }
    }

    /// An explicit disconnect for one peer: `Connected -> Closed`. Returns
    /// whether the peer was connected and is now closed.
    pub fn disconnect_peer(&mut self, player_id: &String) -> (r: bool)
        requires
            old(self).wf(),
        ensures
            final(self).wf(),
            final(self)@ == spec_disconnect(old(self)@, player_id@),
            r == (peer_state_of(old(self)@, player_id@) == PeerState::Connected),
    {
        let ghost s0 = self@;
        match self.find_peer_index(player_id) {
            Some(i) => {
                proof {
                    lemma_find_index(s0.peers, player_id@);
                    assert(self@.peers[i as int] == self.peers@[i as int]@);
                }
                let st = self.peers[i].state;
                if st == PeerState::Connected {
                    let e = &mut self.peers[i];
                    e.state = PeerState::Closed;
                    e.ticks_negotiating = 0;
                    e.pending_ice.clear();
                    proof {
                        assert(self@.peers[i as int] =~~= spec_closed(s0.peers[i as int])) by {
                            assert(self.peers@[i as int].pending_ice.deep_view() =~= Seq::<
                                Seq<char>,
                            >::empty());
                        }
                        assert(self@.peers =~~= s0.peers.update(
                            i as int,
                            spec_closed(s0.peers[i as int]),
                        ));
                        assert forall|a: int, b: int|
                            0 <= a < b < self@.peers.len() implies self@.peers[a].player_id
                            != self@.peers[b].player_id by {
                            assert(self@.peers[a].player_id == s0.peers[a].player_id);
                            assert(self@.peers[b].player_id == s0.peers[b].player_id);
                        }
                    }
                    true
                } else {
                    false
                }
            },
            None => false,
        }
    }

    /// Room teardown: every in-flight or live connection is closed, buffered
    /// candidates are released; failed peers stay failed.
    pub fn close_all(&mut self)
        requires
            old(self).wf(),
        ensures
            final(self).wf(),
            final(self)@ == spec_close_all(old(self)@),
    {
        let ghost s0 = self@;
        let n = self.peers.len();
        let mut i: usize = 0;
        while i < n
            invariant
                n == self.peers.len(),
                i <= n,
                s0.peers.len() == n,
                self@.room_id == s0.room_id,
                forall|j: int| 0 <= j < i ==> self@.peers[j] == spec_teardown_peer(s0.peers[j]),
                forall|j: int| i <= j < n ==> self@.peers[j] == s0.peers[j],
            decreases n - i,
        {
            let ghost pre = self@;
            let ghost prevseq = self.peers@;
            proof {
                assert(self@.peers[i as int] == self.peers@[i as int]@);
            }
            let st = self.peers[i].state;
            let e = &mut self.peers[i];
            if st != PeerState::Failed {
                e.state = PeerState::Closed;
            }
            e.ticks_negotiating = 0;
            e.pending_ice.clear();
            proof {
                assert forall|j: int| 0 <= j < n && j != i implies self@.peers[j] == pre.peers[j] by {
                    assert(self.peers@[j] == prevseq[j]);
                }
                assert(self.peers@[i as int].pending_ice.deep_view() =~= Seq::<Seq<char>>::empty());
                assert(self@.peers[i as int] =~~= spec_teardown_peer(s0.peers[i as int]));
                assert forall|j: int| 0 <= j < i + 1 implies self@.peers[j] == spec_teardown_peer(
                    s0.peers[j],
                ) by {
                    if j < i {
                        assert(self@.peers[j] == pre.peers[j]);
                        assert(pre.peers[j] == spec_teardown_peer(s0.peers[j]));
                    }
                }
            }
            i += 1;
        }
        proof {
            assert(self@.peers =~~= Seq::new(
                s0.peers.len(),
                |j: int| spec_teardown_peer(s0.peers[j]),
            ));
            assert forall|a: int, b: int|
                0 <= a < b < self@.peers.len() implies self@.peers[a].player_id
                != self@.peers[b].player_id by {
                assert(self@.peers[a].player_id == s0.peers[a].player_id);
                assert(self@.peers[b].player_id == s0.peers[b].player_id);
            }
        }
    }
}

/// The offer SDP a room synthesizes for one player, exactly
/// `spec_offer_sdp` of the two ids.
fn make_offer_sdp(room_id: &String, player_id: &String) -> (r: String)
    ensures
        r@ == spec_offer_sdp(room_id@, player_id@),
{
    let mut s = String::from_str("offer:");
    s.append(room_id.as_str());
    s.append(":");
    s.append(player_id.as_str());
    s
}

} // verus!
