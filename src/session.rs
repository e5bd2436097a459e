use vstd::prelude::*;

use crate::envelope::{delimiter_free, has_three_fields, is_frame, Envelope, EnvelopeModel};
use crate::hub::Hub;
use crate::topic::{Delivery, DeliveryModel, TopicModel};

verus! {

/// The life of one connection.
#[derive(PartialEq, Eq, Structural, Clone, Copy, Debug)]
pub enum Phase {
    /// The protocol upgrade is in progress.
    Connecting,
    /// Upgraded, room resolved and subscription held.
    Joined,
    /// Both the inbound and the outbound duty are running.
    Streaming,
    /// A duty ended; the other one is being stopped and the subscription
    /// released.
    Closing,
    /// Terminal.
    Closed,
}

/// What happens to a connection.
#[derive(PartialEq, Eq, Structural, Clone, Copy, Debug)]
pub enum SessionEvent {
    /// The protocol upgrade completed and the room was joined.
    Upgraded,
    /// The protocol upgrade failed.
    UpgradeFailed,
    /// Both duties were started.
    DutiesStarted,
    /// A duty ended: read or write error, or the client closed.
    DutyEnded,
    /// Both duties stopped and the subscription was released.
    TornDown,
}

/// The phase after `ev` in phase `p`; an event that does not apply leaves
/// the phase as it is.
pub open spec fn next_phase_of(p: Phase, ev: SessionEvent) -> Phase {
    match (p, ev) {
        (Phase::Connecting, SessionEvent::Upgraded) => Phase::Joined,
        (Phase::Connecting, SessionEvent::UpgradeFailed) => Phase::Closed,
        (Phase::Joined, SessionEvent::DutiesStarted) => Phase::Streaming,
        (Phase::Joined, SessionEvent::DutyEnded) => Phase::Closing,
        (Phase::Streaming, SessionEvent::DutyEnded) => Phase::Closing,
        (Phase::Closing, SessionEvent::TornDown) => Phase::Closed,
        _ => p,
    }
}

/// The phase after `ev` in phase `p`. Nothing leaves `Closed`.
pub fn next_phase(p: Phase, ev: SessionEvent) -> (r: Phase)
    ensures
        r == next_phase_of(p, ev),
        p == Phase::Closed ==> r == Phase::Closed,
{
    match (p, ev) {
        (Phase::Connecting, SessionEvent::Upgraded) => Phase::Joined,
        (Phase::Connecting, SessionEvent::UpgradeFailed) => Phase::Closed,
        (Phase::Joined, SessionEvent::DutiesStarted) => Phase::Streaming,
        (Phase::Joined, SessionEvent::DutyEnded) => Phase::Closing,
        (Phase::Streaming, SessionEvent::DutyEnded) => Phase::Closing,
        (Phase::Closing, SessionEvent::TornDown) => Phase::Closed,
        _ => p,
    }
}

/// True of the text form of a UUID: 36 characters, lower-case hex digits
/// and hyphens.
pub open spec fn is_uuid_text(s: Seq<char>) -> bool {
    &&& s.len() == 36
    &&& forall|i: int|
        0 <= i < s.len() ==> ('0' <= #[trigger] s[i] <= '9' || 'a' <= s[i] <= 'f' || s[i] == '-')
}

/// Relies on uuid's `Uuid::new_v4` and its `Display`, which writes the
/// hyphenated lower-case form: 36 characters of hex digits and hyphens.
#[verifier::external_body]
fn fresh_client_id() -> (r: String)
    ensures
        is_uuid_text(r@),
{
    uuid::Uuid::new_v4().to_string()
}

/// The room a connection joins when its request path names none.
pub const DEFAULT_ROOM: &'static str = "default";

/// True when `room` is what remains of `path` after its leading slashes.
pub open spec fn strips_leading_slashes(path: Seq<char>, room: Seq<char>) -> bool {
    exists|k: int|
        0 <= k <= path.len() && (forall|i: int| 0 <= i < k ==> path[i] == '/') && (k == path.len()
            || path[k] != '/') && room == path.subrange(k, path.len() as int)
}

/// The room named by a connection's request path: the path without its
/// leading slashes, or `DEFAULT_ROOM` when nothing else is left.
pub fn room_from_path(path: &str) -> (r: String)
    ensures
        exists|rest: Seq<char>|
            strips_leading_slashes(path@, rest) && r@ == if rest.len() == 0 {
                DEFAULT_ROOM@
            } else {
                rest
            },
{
    let n = path.unicode_len();
    let mut k: usize = 0;
    while k < n && path.get_char(k) == '/'
        invariant
            k <= n,
            n == path@.len(),
            forall|i: int| 0 <= i < k ==> path@[i] == '/',
        decreases n - k,
    {
        k = k + 1;
    }
    let rest = path.substring_char(k, n);
    assert(strips_leading_slashes(path@, rest@));
    let r = if k == n {
        String::from_str(DEFAULT_ROOM)
    } else {
        rest.to_string()
    };
    assert(r@ == if rest@.len() == 0 {
        DEFAULT_ROOM@
    } else {
        rest@
    });
    r
}

/// The sender fields of the notice sent to a subscriber that fell behind.
pub const NOTICE_SENDER: &'static str = "server";

/// The body of the notice sent to a subscriber that fell behind.
pub const GAP_NOTICE: &'static str = "some messages were dropped because you fell behind";

/// What the outbound duty does with one delivery.
#[derive(Debug)]
pub enum Outbound {
    /// Write this frame to the client.
    Send(String),
    /// The client's own envelope: write nothing.
    Skip,
    /// Nothing new: wait for the next publication.
    Wait,
    /// The subscription is gone: end the duty.
    Stop,
}

/// The mathematical value of an outbound decision.
pub enum OutboundModel {
    Send(Seq<char>),
    Skip,
    Wait,
    Stop,
}

impl View for Outbound {
    type V = OutboundModel;

    open spec fn view(&self) -> OutboundModel {
        match self {
            Outbound::Send(f) => OutboundModel::Send(f@),
            Outbound::Skip => OutboundModel::Skip,
            Outbound::Wait => OutboundModel::Wait,
            Outbound::Stop => OutboundModel::Stop,
        }
    }
}

/// The frame that tells a subscriber it missed envelopes.
pub open spec fn gap_notice_frame() -> Seq<char> {
    EnvelopeModel {
        sender_id: NOTICE_SENDER@,
        sender_name: NOTICE_SENDER@,
        body: GAP_NOTICE@,
    }.frame()
}

/// What a session whose client is `own_id` does with delivery `d`: forward
/// every envelope but its own, tell of a gap, wait, or stop.
pub open spec fn outbound_of(own_id: Seq<char>, d: DeliveryModel) -> OutboundModel {
    match d {
        DeliveryModel::Message { envelope, .. } => if envelope.sender_id == own_id {
            OutboundModel::Skip
        } else {
            OutboundModel::Send(envelope.frame())
        },
        DeliveryModel::Lagged { .. } => OutboundModel::Send(gap_notice_frame()),
        DeliveryModel::Empty => OutboundModel::Wait,
        DeliveryModel::Closed => OutboundModel::Stop,
    }
}

/// One client connection: its server-assigned identity, its room slot in
/// the registry and its subscription there.
pub struct Session {
    pub client_id: String,
    pub slot: usize,
    pub subscription: usize,
    pub phase: Phase,
}

impl Session {
    /// Resolves `room` in the registry (creating it when new) and
    /// subscribes to its topic, for a client known as `client_id`. `None`
    /// only when the topic can number no further subscription.
    pub fn connect_as(hub: &mut Hub, room: &str, client_id: String) -> (r: Option<Session>)
        requires
            old(hub).well_formed(),
            old(hub)@.names.len() < usize::MAX,
        ensures
            final(hub).well_formed(),
            ({
                let j = old(hub)@.joined(room@);
                let slot = old(hub)@.slot_of(room@);
                &&& r is None <==> j.topics[slot as int].cursors.len() == usize::MAX
                &&& r is None ==> final(hub)@ == j
                &&& r matches Some(sess) ==> {
                    &&& sess.slot == slot
                    &&& sess.subscription == j.topics[slot as int].cursors.len()
                    &&& sess.phase == Phase::Joined
                    &&& sess.client_id@ == client_id@
                    &&& final(hub)@ == j.with_topic(slot, j.topics[slot as int].subscribed())
                }
            }),
    {
        let slot = hub.join(room);
        match hub.subscribe(slot) {
            None => None,
            Some(subscription) => Some(Session { client_id, slot, subscription, phase: Phase::Joined }),
        }
    }

    /// `connect_as` with a fresh client identifier, the text form of a
    /// random UUID.
    pub fn connect(hub: &mut Hub, room: &str) -> (r: Option<Session>)
        requires
            old(hub).well_formed(),
            old(hub)@.names.len() < usize::MAX,
        ensures
            final(hub).well_formed(),
            ({
                let j = old(hub)@.joined(room@);
                let slot = old(hub)@.slot_of(room@);
                &&& r is None <==> j.topics[slot as int].cursors.len() == usize::MAX
                &&& r is None ==> final(hub)@ == j
                &&& r matches Some(sess) ==> {
                    &&& sess.slot == slot
                    &&& sess.subscription == j.topics[slot as int].cursors.len()
                    &&& sess.phase == Phase::Joined
                    &&& is_uuid_text(sess.client_id@)
                    &&& delimiter_free(sess.client_id@)
                    &&& final(hub)@ == j.with_topic(slot, j.topics[slot as int].subscribed())
                }
            }),
    {
        let client_id = fresh_client_id();
        Session::connect_as(hub, room, client_id)
    }

    /// Applies `ev` to the session's phase.
    pub fn advance(&mut self, ev: SessionEvent)
        ensures
            final(self).phase == next_phase_of(old(self).phase, ev),
            final(self).client_id == old(self).client_id,
            final(self).slot == old(self).slot,
            final(self).subscription == old(self).subscription,
    {
        self.phase = next_phase(self.phase, ev);
    }

    /// The envelope to publish for a frame from the client: the frame's
    /// name and body under this session's own identifier, whatever
    /// identifier the client wrote. A malformed frame gives `None`.
    pub fn inbound(&self, frame: &str) -> (r: Option<Envelope>)
        ensures
            r is Some <==> has_three_fields(frame@),
            r matches Some(e) ==> {
                &&& e.sender_id@ == self.client_id@
                &&& exists|id: Seq<char>| is_frame(frame@, id, e.sender_name@, e.body@)
            },
    {
        match Envelope::parse(frame) {
            None => None,
            Some(e) => {
                let ghost parsed = e@;
                let r = Envelope {
                    sender_id: self.client_id.clone(),
                    sender_name: e.sender_name,
                    body: e.body,
                };
                assert(is_frame(frame@, parsed.sender_id, r.sender_name@, r.body@));
                Some(r)
            },
        }
    }

    /// What the outbound duty does with delivery `d`.
    pub fn outbound(&self, d: &Delivery) -> (r: Outbound)
        ensures
            r@ == outbound_of(self.client_id@, d@),
    {
        match d {
            Delivery::Message { envelope, .. } => {
                if envelope.sender_id == self.client_id {
                    Outbound::Skip
                } else {
                    Outbound::Send(envelope.encode())
                }
            },
            Delivery::Lagged { .. } => {
                let notice = Envelope {
                    sender_id: NOTICE_SENDER.to_string(),
                    sender_name: NOTICE_SENDER.to_string(),
                    body: GAP_NOTICE.to_string(),
                };
                Outbound::Send(notice.encode())
            },
            Delivery::Empty => Outbound::Wait,
            Delivery::Closed => Outbound::Stop,
        }
    }

    /// Releases the subscription; the session receives nothing more.
    pub fn leave(&self, hub: &mut Hub)
        requires
            old(hub).well_formed(),
            self.slot < old(hub)@.names.len(),
        ensures
            final(hub).well_formed(),
            final(hub)@ == old(hub)@.with_topic(
                self.slot as nat,
                old(hub)@.topics[self.slot as int].released(self.subscription as nat),
            ),
    {
        hub.release(self.slot, self.subscription);
    }
}

/// Fan-out without echo: an envelope published while a subscription is
/// caught up is what that subscription receives next; its session forwards
/// the envelope's frame unless the envelope is its own.
pub proof fn lemma_fan_out_without_echo(m: TopicModel, e: EnvelopeModel, s: nat, own_id: Seq<char>)
    requires
        m.wf(),
        s < m.cursors.len(),
        m.live[s as int],
        m.cursors[s as int] == m.history.len(),
    ensures
        m.published(e).delivery(s) == (DeliveryModel::Message { seq: m.history.len(), envelope: e }),
        outbound_of(own_id, m.published(e).delivery(s)) == if e.sender_id == own_id {
            OutboundModel::Skip
        } else {
            OutboundModel::Send(e.frame())
        },
{
}

/// Overflow: a lagging subscription is told how many envelopes it missed and
/// then resumes at the oldest one still retained, of which there are at most
/// the capacity; publishing is never refused.
pub proof fn lemma_overflow_resumes(m: TopicModel, s: nat)
    requires
        m.wf(),
        s < m.cursors.len(),
        m.live[s as int],
        m.cursors[s as int] < m.first,
    ensures
        m.delivery(s) == (DeliveryModel::Lagged { skipped: (m.first - m.cursors[s as int]) as nat }),
        m.received(s).cursors[s as int] == m.first,
        m.history.len() - m.first <= m.capacity,
        m.first < m.history.len() ==> m.received(s).delivery(s) == (DeliveryModel::Message {
            seq: m.first,
            envelope: m.history[m.first as int],
        }),
        m.received(s).wf(),
{
}

} // verus!
