//! The per-room control loop: once per simulation tick it drains the
//! inbound bridge, dispatches each message through the state machine,
//! advances the negotiation-timeout clocks, and delivers the queued
//! outbound messages — retrying under backpressure rather than dropping.
//! The host only calls `tick` at its fixed rate and `shutdown` at the end.

use crate::bridge::{
    try_recv_client, try_send_outbound, ClientMessageReceiver, OutboundMessageSender, RecvOutcome,
    SendOutcome,
};
use crate::messages::{
    MessageView, OutboundMessage, OutboundView, Report, ReportView, RoomConfig, ServerSignal,
    SignalView,
};
use crate::peer::PeerState;
use crate::room::{
    peer_state_of, peers_extend, spec_advance, spec_close_all, spec_process_all, spec_tick_peer,
    NetworkState,
};
use vstd::prelude::*;

verus! {

/// Most inbound messages drained in one tick, so one busy room cannot
/// starve its scheduler.
pub const MAX_MESSAGES_PER_TICK: usize = 64;

/// Send attempts one outbound message is given — one per tick under
/// backpressure — before it is given up and the loss reported.
pub const MAX_SEND_ATTEMPTS: u32 = 60;

/// One outbound message awaiting delivery, with the attempts spent on it.
#[derive(Debug, Clone, PartialEq, Eq)]
pub struct PendingSend {
    pub message: OutboundMessage,
    pub attempts: u32,
}

/// Mathematical value of a [`PendingSend`].
#[verifier::ext_equal]
pub struct PendingView {
    pub message: OutboundView,
    pub attempts: u32,
}

impl View for PendingSend {
    type V = PendingView;

    open spec fn view(&self) -> PendingView {
        PendingView { message: self.message@, attempts: self.attempts }
    }
}

impl DeepView for PendingSend {
    type V = PendingView;

    open spec fn deep_view(&self) -> PendingView {
        self.view()
    }
}

/// Whether the room can keep ticking or its bridge has been torn down.
#[derive(Debug, Clone, Copy, PartialEq, Eq, Structural)]
pub enum TickStatus {
    Running,
    /// An endpoint of the bridge is disconnected: the room should be shut
    /// down gracefully. This is the only fatal condition a room knows.
    BridgeClosed,
}

/// What one tick hands back to the host.
pub struct TickOutput {
    pub status: TickStatus,
    pub reports: Vec<Report>,
}

/// What the verified retry rule decides for one attempted send.
pub enum SendDisposition {
    /// The message went out.
    Delivered,
    /// The channel was full: keep the message for the next tick.
    Requeue(PendingSend),
    /// The channel was full and the attempts ran out: report the loss.
    GiveUp(Report),
    /// The bridge is torn down: keep the message and stop sending.
    ChannelDown(PendingSend),
}

/// The backpressure rule, decided on the outcome of one send. The message
/// always survives a full channel — requeued with one more attempt spent, or
/// turned into a `SendGivenUp` report once its attempts run out — so nothing
/// is ever silently dropped.
pub fn settle_send(attempts: u32, outcome: SendOutcome) -> (r: SendDisposition)
    requires
        attempts < MAX_SEND_ATTEMPTS,
    ensures
        match outcome {
            SendOutcome::Sent => r == SendDisposition::Delivered,
            SendOutcome::Full(m) => {
                if attempts + 1 < MAX_SEND_ATTEMPTS {
                    r == SendDisposition::Requeue(
                        PendingSend { message: m, attempts: (attempts + 1) as u32 },
                    )
                } else {
                    r == SendDisposition::GiveUp(
                        Report::SendGivenUp { target_player_id: m.target_player_id },
                    )
                }
            },
            SendOutcome::Disconnected(m) => r == SendDisposition::ChannelDown(
                PendingSend { message: m, attempts: attempts },
            ),
        },
{
    match outcome {
        SendOutcome::Sent => SendDisposition::Delivered,
        SendOutcome::Full(m) => {
            if attempts + 1 < MAX_SEND_ATTEMPTS {
                SendDisposition::Requeue(PendingSend { message: m, attempts: attempts + 1 })
            } else {
                SendDisposition::GiveUp(
                    Report::SendGivenUp { target_player_id: m.target_player_id },
                )
            }
        },
        SendOutcome::Disconnected(m) => SendDisposition::ChannelDown(
            PendingSend { message: m, attempts },
        ),
    }
}

/// The shape of one send outcome, the message abstracted away.
#[derive(Debug, Clone, Copy, PartialEq, Eq, Structural)]
pub enum SendKind {
    Sent,
    Full,
    Disconnected,
}

/// What one delivery pass leaves behind: the queue for the next tick, the
/// give-up reports, and whether the bridge is still up.
#[verifier::ext_equal]
pub struct FlushView {
    pub pending: Seq<PendingView>,
    pub reports: Seq<ReportView>,
    pub status: TickStatus,
}

/// Fresh outbound messages as queue entries with no attempts spent yet.
pub open spec fn spec_as_pending(out: Seq<OutboundView>) -> Seq<PendingView> {
    out.map_values(|m: OutboundView| PendingView { message: m, attempts: 0u32 })
}

/// One delivery pass over the queue, oldest first, given the outcome each
/// attempted send met. A sent message leaves the queue; one that met a full
/// channel stays for the next tick with one more attempt spent, or becomes a
/// `SendGivenUp` report once its attempts run out; once the channel reports
/// itself disconnected, that message and everything after it stay queued
/// untouched. No queued message ever just disappears.
pub open spec fn spec_flush(q: Seq<PendingView>, ks: Seq<SendKind>) -> FlushView
    decreases q.len(),
{
    if q.len() == 0 {
        FlushView { pending: Seq::empty(), reports: Seq::empty(), status: TickStatus::Running }
    } else {
        let prev = spec_flush(q.drop_last(), ks.drop_last());
        let p = q.last();
        if prev.status == TickStatus::BridgeClosed {
            FlushView { pending: prev.pending.push(p), reports: prev.reports, status: prev.status }
        } else {
            match ks.last() {
                SendKind::Sent => prev,
                SendKind::Full => {
                    if p.attempts + 1 < MAX_SEND_ATTEMPTS {
                        FlushView {
                            pending: prev.pending.push(
                                (PendingView {
                                    message: p.message,
                                    attempts: (p.attempts + 1) as u32,
                                }),
                            ),
                            reports: prev.reports,
                            status: prev.status,
                        }
                    } else {
                        FlushView {
                            pending: prev.pending,
                            reports: prev.reports.push(
                                (ReportView::SendGivenUp {
                                    target_player_id: p.message.target_player_id,
                                }),
                            ),
                            status: prev.status,
                        }
                    }
                },
                SendKind::Disconnected => FlushView {
                    pending: prev.pending.push(p),
                    reports: prev.reports,
                    status: TickStatus::BridgeClosed,
                },
            }
        }
    }
}

/// One delivery pass accounted for: the queue afterwards, the reports it
/// appended and the status it returned are exactly what `spec_flush` says of
/// the queue before and the outcomes met.
pub open spec fn spec_flush_accounts(
    q: Seq<PendingView>,
    post_pending: Seq<PendingView>,
    pre_reports: Seq<ReportView>,
    post_reports: Seq<ReportView>,
    status: TickStatus,
    ks: Seq<SendKind>,
) -> bool {
    &&& ks.len() == q.len()
    &&& post_pending == spec_flush(q, ks).pending
    &&& post_reports == pre_reports + spec_flush(q, ks).reports
    &&& status == spec_flush(q, ks).status
}

/// One whole tick accounted for. `ms` are the messages received this tick —
/// at most the drain budget — `recv_down` whether the inbound endpoint was
/// found disconnected, and `ks` the outcome each attempted send met. The new
/// state is exactly the message fold followed by one timeout step; the
/// queue, the reports and the status are exactly what queueing the fold's
/// outbound messages and one delivery pass give — so timeouts always
/// advance, and no generated message is lost without a send or a report.
pub open spec fn spec_tick_accounts(
    pre: RoomRuntime,
    post: RoomRuntime,
    out: TickOutput,
    ms: Seq<MessageView>,
    recv_down: bool,
    ks: Seq<SendKind>,
) -> bool {
    let processed = spec_process_all(pre.state@, ms);
    let advanced = spec_advance(processed.state);
    let queued = pre.pending_outbound.deep_view() + spec_as_pending(processed.outbound);
    &&& ms.len() <= MAX_MESSAGES_PER_TICK
    &&& post.state@ == advanced.state
    &&& if recv_down {
        &&& post.pending_outbound.deep_view() == queued
        &&& out.reports.deep_view() == processed.reports + advanced.reports
        &&& out.status == TickStatus::BridgeClosed
    } else {
        spec_flush_accounts(
            queued,
            post.pending_outbound.deep_view(),
            processed.reports + advanced.reports,
            out.reports.deep_view(),
            out.status,
            ks,
        )
    }
}

/// One room's runtime: its authoritative state plus the outbound messages
/// still awaiting delivery. Instantiated from `(room id, inbound receiver,
/// outbound sender)`; the endpoints stay with the host and are passed to
/// `tick`.
#[derive(Debug)]
pub struct RoomRuntime {
    pub state: NetworkState,
    /// Outbound messages not yet delivered, oldest first.
    pub pending_outbound: Vec<PendingSend>,
}

impl RoomRuntime {
    /// The room's entries are keyed by player id and nothing queued has
    /// spent all its send attempts.
    pub open spec fn wf(&self) -> bool {
        &&& self.state.wf()
        &&& forall|i: int|
            0 <= i < self.pending_outbound@.len() ==> self.pending_outbound@[i].attempts
                < MAX_SEND_ATTEMPTS
    }

    /// A fresh runtime for one room, with no peers and nothing queued.
    pub fn new(config: RoomConfig) -> (r: RoomRuntime)
        ensures
            r.wf(),
            r.state@.room_id == config.room_id@,
            r.state@.peers.len() == 0,
            r.pending_outbound@.len() == 0,
    {
        RoomRuntime { state: NetworkState::new(config), pending_outbound: Vec::new() }
    }

    /// Queue freshly generated outbound messages for delivery, oldest first,
    /// each with its attempts still unspent.
    fn queue_outbound(&mut self, msgs: Vec<OutboundMessage>)
        requires
            old(self).wf(),
        ensures
            final(self).wf(),
            final(self).state == old(self).state,
            final(self).pending_outbound@.len() == old(self).pending_outbound@.len() + msgs@.len(),
            forall|k: int|
                0 <= k < old(self).pending_outbound@.len() ==> final(self).pending_outbound@[k]
                    == old(self).pending_outbound@[k],
            forall|k: int|
                0 <= k < msgs@.len() ==> final(self).pending_outbound@[old(
                    self,
                ).pending_outbound@.len() + k] == (PendingSend {
                    message: msgs@[k],
                    attempts: 0u32,
                }),
    {
        let ghost p0 = self.pending_outbound@;
        let ghost m0 = msgs@;
        let mut msgs = msgs;
        let total: usize = msgs.len();
        let mut i: usize = 0;
        while msgs.len() > 0
            invariant
                m0.len() == total as int,
                i <= total,
                i <= m0.len(),
                msgs@ == m0.skip(i as int),
                self.state == old(self).state,
                self.pending_outbound@.len() == p0.len() + i,
                forall|k: int| 0 <= k < p0.len() ==> self.pending_outbound@[k] == p0[k],
                forall|k: int|
                    0 <= k < i ==> self.pending_outbound@[p0.len() + k] == (PendingSend {
                        message: m0[k],
                        attempts: 0u32,
                    }),
                old(self).wf(),
            decreases msgs@.len(),
        {
            proof {
                assert(i < m0.len());
            }
            let m = msgs.remove(0);
            proof {
                assert(m == m0[i as int]);
                assert(msgs@ =~= m0.skip(i as int + 1));
            }
            self.pending_outbound.push(PendingSend { message: m, attempts: 0 });
            i += 1;
        }
        proof {
            assert(i == m0.len());
            assert forall|k: int|
                0 <= k < self.pending_outbound@.len() implies self.pending_outbound@[k].attempts
                < MAX_SEND_ATTEMPTS by {
                if k < p0.len() {
                    assert(self.pending_outbound@[k] == p0[k]);
                } else {
                    assert(self.pending_outbound@[k] == (PendingSend {
                        message: m0[k - p0.len()],
                        attempts: 0u32,
                    }));
                }
            }
        }
    }

    /// Try to deliver everything queued, once each, oldest first. Whatever
    /// outcomes the channel gave, queue, reports and status afterwards are
    /// exactly `spec_flush` of the queue before and those outcomes: a
    /// failure for one message never blocks the rest, a full channel keeps
    /// the message for the next tick until its attempts run out and the loss
    /// is reported, `BridgeClosed` comes only from a disconnected outcome,
    /// and nothing queued is ever silently dropped.
    fn flush_outbound(&mut self, tx: &OutboundMessageSender, reports: &mut Vec<Report>) -> (r:
        TickStatus)
        requires
            old(self).wf(),
        ensures
            final(self).wf(),
            final(self).state == old(self).state,
            exists|ks: Seq<SendKind>|
                spec_flush_accounts(
                    old(self).pending_outbound.deep_view(),
                    final(self).pending_outbound.deep_view(),
                    old(reports).deep_view(),
                    final(reports).deep_view(),
                    r,
                    ks,
                ),
    {
        let mut work: Vec<PendingSend> = Vec::new();
        core::mem::swap(&mut work, &mut self.pending_outbound);
        let ghost w0 = work.deep_view();
        let ghost r0 = reports.deep_view();
        let ghost mut ks: Seq<SendKind> = Seq::empty();
        let ghost mut i: int = 0;
        let mut status = TickStatus::Running;
        proof {
            assert(w0 == old(self).pending_outbound.deep_view());
            assert(w0.take(0) =~= Seq::<PendingView>::empty());
            assert(self.pending_outbound.deep_view() =~= Seq::<PendingView>::empty());
            assert(r0 + Seq::<ReportView>::empty() =~= r0);
            assert(w0.skip(0) =~= w0);
        }
        while work.len() > 0
            invariant
                0 <= i <= w0.len(),
                ks.len() == i,
                work.deep_view() == w0.skip(i),
                self.state == old(self).state,
                self.wf(),
                forall|k: int| 0 <= k < work@.len() ==> work@[k].attempts < MAX_SEND_ATTEMPTS,
                self.pending_outbound.deep_view() == spec_flush(w0.take(i), ks).pending,
                reports.deep_view() == r0 + spec_flush(w0.take(i), ks).reports,
                status == spec_flush(w0.take(i), ks).status,
            decreases work@.len(),
        {
            let ghost prev = spec_flush(w0.take(i), ks);
            proof {
                assert(work.deep_view().len() == work@.len());
                assert(0 < w0.skip(i).len());
                assert(i < w0.len());
                assert(work.deep_view()[0] == w0[i]);
            }
            let ghost wpre = work@;
            let ghost wpre_deep = work.deep_view();
            let p = work.remove(0);
            let ghost pv = p@;
            proof {
                assert(p.deep_view() == pv);
                assert(pv == w0[i]);
                assert(work.deep_view().len() == work@.len());
                assert forall|k: int|
                    0 <= k < work.deep_view().len() implies work.deep_view()[k] == w0.skip(
                    i + 1,
                )[k] by {
                    assert(work@[k] == wpre[k + 1]);
                    assert(work.deep_view()[k] == work@[k].deep_view());
                    assert(wpre_deep[k + 1] == wpre[k + 1].deep_view());
                    assert(wpre_deep[k + 1] == w0.skip(i)[k + 1]);
                    assert(w0.skip(i)[k + 1] == w0[i + 1 + k]);
                    assert(w0.skip(i + 1)[k] == w0[i + 1 + k]);
                }
                assert(work.deep_view() =~= w0.skip(i + 1));
                assert(w0.take(i + 1).drop_last() =~= w0.take(i));
                assert(w0.take(i + 1).last() == pv);
            }
            if status == TickStatus::Running {
                let PendingSend { message, attempts } = p;
                proof {
                    assert(pv.message == message@ && pv.attempts == attempts);
                }
                let outcome = try_send_outbound(tx, message);
                match settle_send(attempts, outcome) {
                    SendDisposition::Delivered => {
                        proof {
                            let ks1 = ks.push(SendKind::Sent);
                            assert(ks1.drop_last() =~= ks);
                            assert(ks1.last() == SendKind::Sent);
                            assert(spec_flush(w0.take(i + 1), ks1) == prev);
                            ks = ks1;
                            i = i + 1;
                        }
                    },
                    SendDisposition::Requeue(q) => {
                        self.pending_outbound.push(q);
                        proof {
                            let ks1 = ks.push(SendKind::Full);
                            assert(ks1.drop_last() =~= ks);
                            assert(ks1.last() == SendKind::Full);
                            assert(q@ == (PendingView {
                                message: pv.message,
                                attempts: (pv.attempts + 1) as u32,
                            }));
                            assert(self.pending_outbound.deep_view() =~~= prev.pending.push(q@));
                            assert(spec_flush(w0.take(i + 1), ks1).pending == prev.pending.push(
                                q@,
                            ));
                            assert(spec_flush(w0.take(i + 1), ks1).reports == prev.reports);
                            assert(spec_flush(w0.take(i + 1), ks1).status == prev.status);
                            ks = ks1;
                            i = i + 1;
                        }
                    },
                    SendDisposition::GiveUp(rep) => {
                        reports.push(rep);
                        proof {
                            let ks1 = ks.push(SendKind::Full);
                            assert(ks1.drop_last() =~= ks);
                            assert(ks1.last() == SendKind::Full);
                            assert(rep@ == (ReportView::SendGivenUp {
                                target_player_id: pv.message.target_player_id,
                            }));
                            assert(reports.deep_view() =~~= (r0 + prev.reports).push(rep@));
                            assert((r0 + prev.reports).push(rep@) =~= r0 + prev.reports.push(rep@));
                            assert(spec_flush(w0.take(i + 1), ks1).reports == prev.reports.push(
                                rep@,
                            ));
                            assert(spec_flush(w0.take(i + 1), ks1).pending == prev.pending);
                            assert(spec_flush(w0.take(i + 1), ks1).status == prev.status);
                            ks = ks1;
                            i = i + 1;
                        }
                    },
                    SendDisposition::ChannelDown(q) => {
                        self.pending_outbound.push(q);
                        status = TickStatus::BridgeClosed;
                        proof {
                            let ks1 = ks.push(SendKind::Disconnected);
                            assert(ks1.drop_last() =~= ks);
                            assert(ks1.last() == SendKind::Disconnected);
                            assert(q@ == pv);
                            assert(self.pending_outbound.deep_view() =~~= prev.pending.push(pv));
                            assert(spec_flush(w0.take(i + 1), ks1).pending == prev.pending.push(
                                pv,
                            ));
                            assert(spec_flush(w0.take(i + 1), ks1).reports == prev.reports);
                            assert(spec_flush(w0.take(i + 1), ks1).status
                                == TickStatus::BridgeClosed);
                            ks = ks1;
                            i = i + 1;
                        }
                    },
                }
            } else {
                self.pending_outbound.push(p);
                proof {
                    let ks1 = ks.push(SendKind::Sent);
                    assert(ks1.drop_last() =~= ks);
                    assert(prev.status == TickStatus::BridgeClosed);
                    assert(self.pending_outbound.deep_view() =~~= prev.pending.push(pv));
                    assert(spec_flush(w0.take(i + 1), ks1).pending == prev.pending.push(pv));
                    assert(spec_flush(w0.take(i + 1), ks1).reports == prev.reports);
                    assert(spec_flush(w0.take(i + 1), ks1).status == prev.status);
                    ks = ks1;
                    i = i + 1;
                }
            }
        }
        proof {
            assert(w0.skip(i).len() == 0);
            assert(i == w0.len());
            assert(w0.take(i) =~= w0);
            assert(spec_flush_accounts(
                old(self).pending_outbound.deep_view(),
                self.pending_outbound.deep_view(),
                r0,
                reports.deep_view(),
                status,
                ks,
            ));
        }
        status
    }

    /// One simulation tick, never blocking: drain up to
    /// `MAX_MESSAGES_PER_TICK` inbound messages and dispatch each through
    /// the state machine, advance the per-peer timeout clocks, then try to
    /// deliver everything queued. Whatever the channels did, the tick is
    /// accounted for: the new state is exactly the fold of the received
    /// messages followed by one timeout step — so waiting peers' clocks
    /// always move — and the queue, reports and status are exactly what
    /// `spec_flush` says of the outcomes met: no message is lost without a
    /// send or a report. On `BridgeClosed` the host should call `shutdown`
    /// and stop ticking.
    pub fn tick(&mut self, rx: &ClientMessageReceiver, tx: &OutboundMessageSender) -> (out:
        TickOutput)
        requires
            old(self).wf(),
        ensures
            final(self).wf(),
            final(self).state@.room_id == old(self).state@.room_id,
            peers_extend(old(self).state@.peers, final(self).state@.peers),
            exists|ms: Seq<MessageView>, recv_down: bool, ks: Seq<SendKind>|
                spec_tick_accounts(*old(self), *final(self), out, ms, recv_down, ks),
    {
        let ghost s0 = self.state@;
        let ghost p0 = self.pending_outbound.deep_view();
        let ghost mut ms: Seq<MessageView> = Seq::empty();
        let mut reports: Vec<Report> = Vec::new();
        let mut recv_down = false;
        let mut received: usize = 0;
        let mut draining: usize = 1;
        proof {
            assert(spec_as_pending(Seq::<OutboundView>::empty()) =~= Seq::<PendingView>::empty());
            assert(p0 + Seq::<PendingView>::empty() =~= p0);
            assert(reports.deep_view() =~= Seq::<ReportView>::empty());
        }
        while draining == 1 && received < MAX_MESSAGES_PER_TICK
            invariant
                self.wf(),
                self.state@.room_id == old(self).state@.room_id,
                peers_extend(old(self).state@.peers, self.state@.peers),
                received <= MAX_MESSAGES_PER_TICK,
                draining <= 1,
                s0 == old(self).state@,
                p0 == old(self).pending_outbound.deep_view(),
                ms.len() == received as int,
                self.state@ == spec_process_all(s0, ms).state,
                self.pending_outbound.deep_view() == p0 + spec_as_pending(
                    spec_process_all(s0, ms).outbound,
                ),
                reports.deep_view() == spec_process_all(s0, ms).reports,
            decreases MAX_MESSAGES_PER_TICK - received + draining,
        {
            match try_recv_client(rx) {
                RecvOutcome::Msg(m) => {
                    let ghost pre = spec_process_all(s0, ms);
                    let ghost mv = m@;
                    let mut step = self.state.process_message(m);
                    proof {
                        crate::room::lemma_process_message_frame(pre.state, mv);
                        crate::room::lemma_peers_extend_trans(
                            old(self).state@.peers,
                            pre.state.peers,
                            self.state@.peers,
                        );
                    }
                    let ghost ob = self.pending_outbound.deep_view();
                    let ghost sv = step.outbound.deep_view();
                    let ghost rv = step.reports.deep_view();
                    self.queue_outbound(step.outbound);
                    reports.append(&mut step.reports);
                    received += 1;
                    proof {
                        let ms1 = ms.push(mv);
                        assert(ms1.drop_last() =~= ms);
                        assert(ms1.last() == mv);
                        let cur = spec_process_all(s0, ms1);
                        assert(cur.state == self.state@);
                        assert(self.pending_outbound.deep_view() =~~= ob + spec_as_pending(sv));
                        assert(spec_as_pending(pre.outbound + sv) =~= spec_as_pending(pre.outbound)
                            + spec_as_pending(sv));
                        assert(self.pending_outbound.deep_view() =~= p0 + spec_as_pending(
                            cur.outbound,
                        ));
                        assert(reports.deep_view() =~~= pre.reports + rv);
                        assert(reports.deep_view() =~= cur.reports);
                        ms = ms1;
                    }
                },
                RecvOutcome::Empty => {
                    draining = 0;
                },
                RecvOutcome::Disconnected => {
                    recv_down = true;
                    draining = 0;
                },
            }
        }
        let ghost processed = spec_process_all(s0, ms);
        let ghost before_advance = self.state@;
        self.state.advance_ticks(&mut reports);
        proof {
            assert(peers_extend(before_advance.peers, self.state@.peers)) by {
                assert forall|j: int|
                    0 <= j < before_advance.peers.len() implies self.state@.peers[j].player_id
                    == before_advance.peers[j].player_id by {
                    assert(self.state@.peers[j] == spec_tick_peer(before_advance.peers[j]));
                }
            }
            crate::room::lemma_peers_extend_trans(
                old(self).state@.peers,
                before_advance.peers,
                self.state@.peers,
            );
            assert(reports.deep_view() == processed.reports + spec_advance(processed.state).reports);
        }
        if recv_down {
            let output = TickOutput { status: TickStatus::BridgeClosed, reports };
            proof {
                assert(spec_tick_accounts(
                    *old(self),
                    *self,
                    output,
                    ms,
                    true,
                    Seq::<SendKind>::empty(),
                ));
            }
            output
        } else {
            let ghost qb = self.pending_outbound.deep_view();
            let ghost rb = reports.deep_view();
            let st = self.flush_outbound(tx, &mut reports);
            let ghost pf = self.pending_outbound.deep_view();
            let ghost rf = reports.deep_view();
            let output = TickOutput { status: st, reports };
            proof {
                let ks = choose|ks: Seq<SendKind>| spec_flush_accounts(qb, pf, rb, rf, st, ks);
                assert(spec_flush_accounts(qb, pf, rb, rf, st, ks));
                assert(output.reports.deep_view() == rf);
                assert(spec_tick_accounts(*old(self), *self, output, ms, false, ks));
            }
            output
        }
    }

    /// An ICE candidate gathered locally for one player by the host's
    /// background negotiation work, posted back onto the room's own path:
    /// queued as a `SendIceCandidate` for the signaling relay — exactly one
    /// message, and only while that peer negotiates or is connected.
    pub fn queue_local_candidate(&mut self, player_id: &String, candidate: String) -> (r: bool)
        requires
            old(self).wf(),
        ensures
            final(self).wf(),
            final(self).state == old(self).state,
            r == (peer_state_of(old(self).state@, player_id@) == PeerState::Negotiating
                || peer_state_of(old(self).state@, player_id@) == PeerState::Connected),
            r ==> final(self).pending_outbound@.len() == old(self).pending_outbound@.len() + 1,
            r ==> (forall|k: int|
                0 <= k < old(self).pending_outbound@.len() ==> final(self).pending_outbound@[k]
                    == old(self).pending_outbound@[k]),
            r ==> final(self).pending_outbound@.last().attempts == 0,
            r ==> final(self).pending_outbound@.last().message@ == (OutboundView {
                room_id: old(self).state@.room_id,
                target_player_id: player_id@,
                signal: SignalView::SendIceCandidate { candidate: candidate@ },
            }),
            !r ==> final(self).pending_outbound@ == old(self).pending_outbound@,
    {
        let st = self.state.peer_state(player_id);
        if st == PeerState::Negotiating || st == PeerState::Connected {
            let msg = OutboundMessage {
                room_id: self.state.room_id.clone(),
                target_player_id: player_id.clone(),
                signal: ServerSignal::SendIceCandidate { candidate },
            };
            self.pending_outbound.push(PendingSend { message: msg, attempts: 0 });
            true
        } else {
            false
        }
    }

    /// Graceful teardown: cancel every in-flight negotiation, close every
    /// live connection, release the buffers, and drop what was still queued.
    pub fn shutdown(&mut self)
        requires
            old(self).wf(),
        ensures
            final(self).wf(),
            final(self).state@ == spec_close_all(old(self).state@),
            final(self).pending_outbound@.len() == 0,
    {
        self.state.close_all();
        self.pending_outbound.clear();
    }
}

} // verus!
