use vstd::prelude::*;

use crate::envelope::{Envelope, EnvelopeModel};

verus! {

/// The capacity of a room's topic unless configured otherwise.
pub const DEFAULT_CAPACITY: usize = 100;

/// The mathematical value of a topic.
///
/// `history` is every envelope ever published, in order; an envelope's
/// sequence number is its index there. Only the last `capacity` of them are
/// still retained, from `first` on. Subscription `s` reads next at
/// `cursors[s]`, joined when `joined[s]` envelopes had been published, and is
/// held by a client while `live[s]`.
pub struct TopicModel {
    pub capacity: nat,
    pub first: nat,
    pub history: Seq<EnvelopeModel>,
    pub cursors: Seq<nat>,
    pub joined: Seq<nat>,
    pub live: Seq<bool>,
}

/// What one receive on a subscription yields.
pub enum DeliveryModel {
    Message { seq: nat, envelope: EnvelopeModel },
    Lagged { skipped: nat },
    Empty,
    Closed,
}

/// One operation on a topic, for reasoning about runs of operations.
pub enum TopicOp {
    Publish(EnvelopeModel),
    Subscribe,
    Receive(nat),
    Release(nat),
}

/// How many of the subscriptions are live.
pub open spec fn count_live(live: Seq<bool>) -> nat
    decreases live.len(),
{
    if live.len() == 0 {
        0
    } else {
        count_live(live.drop_last()) + if live.last() {
            1nat
        } else {
            0nat
        }
    }
}

impl TopicModel {
    /// A topic with nothing published and no subscriptions.
    pub open spec fn fresh(capacity: nat) -> TopicModel {
        TopicModel {
            capacity,
            first: 0,
            history: Seq::empty(),
            cursors: Seq::empty(),
            joined: Seq::empty(),
            live: Seq::empty(),
        }
    }

    pub open spec fn wf(self) -> bool {
        &&& self.capacity > 0
        &&& self.first <= self.history.len()
        &&& self.history.len() - self.first <= self.capacity
        &&& self.cursors.len() == self.joined.len()
        &&& self.cursors.len() == self.live.len()
        &&& forall|s: int|
            0 <= s < self.cursors.len() ==> self.joined[s] <= #[trigger] self.cursors[s]
                <= self.history.len()
    }

    /// After publishing `e`: it is appended, and the oldest retained envelope
    /// is dropped when the window would exceed the capacity.
    pub open spec fn published(self, e: EnvelopeModel) -> TopicModel {
        let h = self.history.push(e);
        TopicModel {
            history: h,
            first: if h.len() - self.first > self.capacity {
                (h.len() - self.capacity) as nat
            } else {
                self.first
            },
            ..self
        }
    }

    /// After a new subscription, which starts at the current end.
    pub open spec fn subscribed(self) -> TopicModel {
        TopicModel {
            cursors: self.cursors.push(self.history.len()),
            joined: self.joined.push(self.history.len()),
            live: self.live.push(true),
            ..self
        }
    }

    /// After subscription `s` is released.
    pub open spec fn released(self, s: nat) -> TopicModel {
        if s < self.live.len() {
            TopicModel { live: self.live.update(s as int, false), ..self }
        } else {
            self
        }
    }

    /// What a receive on subscription `s` yields: the envelope at its cursor,
    /// or, when that one is no longer retained, the number skipped to reach
    /// the oldest retained one.
    pub open spec fn delivery(self, s: nat) -> DeliveryModel {
        if s >= self.cursors.len() || !self.live[s as int] {
            DeliveryModel::Closed
        } else if self.cursors[s as int] < self.first {
            DeliveryModel::Lagged { skipped: (self.first - self.cursors[s as int]) as nat }
        } else if self.cursors[s as int] >= self.history.len() {
            DeliveryModel::Empty
        } else {
            DeliveryModel::Message {
                seq: self.cursors[s as int],
                envelope: self.history[self.cursors[s as int] as int],
            }
        }
    }

    /// The topic after a receive on subscription `s`.
    pub open spec fn received(self, s: nat) -> TopicModel {
        match self.delivery(s) {
            DeliveryModel::Lagged { .. } => TopicModel {
                cursors: self.cursors.update(s as int, self.first),
                ..self
            },
            DeliveryModel::Message { seq, .. } => TopicModel {
                cursors: self.cursors.update(s as int, seq + 1),
                ..self
            },
            _ => self,
        }
    }

    pub open spec fn apply(self, op: TopicOp) -> TopicModel {
        match op {
            TopicOp::Publish(e) => self.published(e),
            TopicOp::Subscribe => self.subscribed(),
            TopicOp::Receive(s) => self.received(s),
            TopicOp::Release(s) => self.released(s),
        }
    }

    /// The topic after running `ops` in order.
    pub open spec fn run(self, ops: Seq<TopicOp>) -> TopicModel
        decreases ops.len(),
    {
        if ops.len() == 0 {
            self
        } else {
            self.run(ops.drop_last()).apply(ops.last())
        }
    }

    /// The sequence numbers of the envelopes that subscription `s` receives
    /// while `ops` run, in the order received.
    pub open spec fn delivered_to(self, ops: Seq<TopicOp>, s: nat) -> Seq<nat>
        decreases ops.len(),
    {
        if ops.len() == 0 {
            Seq::empty()
        } else {
            let before = self.delivered_to(ops.drop_last(), s);
            match ops.last() {
                TopicOp::Receive(x) => if x == s {
                    match self.run(ops.drop_last()).delivery(s) {
                        DeliveryModel::Message { seq, .. } => before.push(seq),
                        _ => before,
                    }
                } else {
                    before
                },
                _ => before,
            }
        }
    }
}

/// Every operation keeps a topic well formed, keeps what was published, and
/// moves no cursor back.
pub proof fn lemma_apply_preserves(m: TopicModel, op: TopicOp)
    requires
        m.wf(),
    ensures
        m.apply(op).wf(),
        m.apply(op).capacity == m.capacity,
        m.history.is_prefix_of(m.apply(op).history),
        m.apply(op).cursors.len() >= m.cursors.len(),
        forall|s: int|
            0 <= s < m.cursors.len() ==> {
                &&& m.cursors[s] <= #[trigger] m.apply(op).cursors[s]
                &&& m.apply(op).joined[s] == m.joined[s]
            },
{
    let r = m.apply(op);
    match op {
        TopicOp::Subscribe => {
            assert forall|s: int| 0 <= s < r.cursors.len() implies r.joined[s] <= #[trigger] r.cursors[s]
                <= r.history.len() by {
                if s < m.cursors.len() {
                    assert(m.joined[s] <= m.cursors[s]);
                }
            }
        },
        TopicOp::Receive(x) => {
            assert forall|s: int| 0 <= s < r.cursors.len() implies r.joined[s] <= #[trigger] r.cursors[s]
                <= r.history.len() by {
                assert(m.joined[s] <= m.cursors[s]);
            }
        },
        TopicOp::Publish(e) => {
            assert forall|s: int| 0 <= s < r.cursors.len() implies r.joined[s] <= #[trigger] r.cursors[s]
                <= r.history.len() by {
                assert(m.joined[s] <= m.cursors[s]);
            }
        },
        TopicOp::Release(x) => {},
    }
}

/// Per-subscription delivery: over any run of operations, a subscription
/// receives envelopes in strictly increasing publication order, and never one
/// published before it subscribed.
pub proof fn lemma_delivery_order(m: TopicModel, ops: Seq<TopicOp>, s: nat)
    requires
        m.wf(),
    ensures
        m.run(ops).wf(),
        m.history.is_prefix_of(m.run(ops).history),
        forall|i: int, j: int|
            0 <= i < j < m.delivered_to(ops, s).len() ==> m.delivered_to(ops, s)[i]
                < m.delivered_to(ops, s)[j],
        s < m.run(ops).cursors.len() ==> forall|i: int|
            0 <= i < m.delivered_to(ops, s).len() ==> m.run(ops).joined[s as int]
                <= #[trigger] m.delivered_to(ops, s)[i] < m.run(ops).cursors[s as int],
        s >= m.run(ops).cursors.len() ==> m.delivered_to(ops, s).len() == 0,
        m.run(ops).cursors.len() >= m.cursors.len(),
        s < m.cursors.len() ==> m.cursors[s as int] <= m.run(ops).cursors[s as int],
        s < m.cursors.len() ==> m.joined[s as int] == m.run(ops).joined[s as int],
        s < m.cursors.len() ==> forall|i: int|
            0 <= i < m.delivered_to(ops, s).len() ==> m.cursors[s as int]
                <= #[trigger] m.delivered_to(ops, s)[i],
    decreases ops.len(),
{
    if ops.len() > 0 {
        let prev = ops.drop_last();
        lemma_delivery_order(m, prev, s);
        let p = m.run(prev);
        lemma_apply_preserves(p, ops.last());
        let r = m.run(ops);
        let d = m.delivered_to(ops, s);
        let dp = m.delivered_to(prev, s);
        assert(r == p.apply(ops.last()));
        if s < p.cursors.len() {
            assert(r.cursors[s as int] >= p.cursors[s as int]);
            assert(r.joined[s as int] == p.joined[s as int]);
        }
        match ops.last() {
            TopicOp::Receive(x) => {
                if x == s {
                    match p.delivery(s) {
                        DeliveryModel::Message { seq, .. } => {
                            assert(d == dp.push(seq));
                            assert(seq == p.cursors[s as int]);
                            assert(r.cursors[s as int] == seq + 1);
                        },
                        _ => {
                            assert(d == dp);
                        },
                    }
                } else {
                    assert(d == dp);
                }
            },
            TopicOp::Subscribe => {
                assert(d == dp);
            },
            _ => {
                assert(d == dp);
            },
        }
        assert(m.history.is_prefix_of(r.history));
    }
}

/// No backlog replay: a subscription opened after `m` receives, over any
/// later run of operations, only envelopes published after it was opened.
pub proof fn lemma_no_backlog_replay(m: TopicModel, ops: Seq<TopicOp>)
    requires
        m.wf(),
    ensures
        forall|i: int|
            0 <= i < m.subscribed().delivered_to(ops, m.cursors.len()).len() ==> m.history.len()
                <= #[trigger] m.subscribed().delivered_to(ops, m.cursors.len())[i],
{
    let m1 = m.subscribed();
    lemma_apply_preserves(m, TopicOp::Subscribe);
    assert(m1 == m.apply(TopicOp::Subscribe));
    lemma_delivery_order(m1, ops, m.cursors.len());
    assert(m1.cursors[m.cursors.len() as int] == m.history.len());
}

/// What one receive on a subscription yields.
#[derive(Debug)]
pub enum Delivery {
    /// The next envelope, with its sequence number.
    Message { seq: u64, envelope: Envelope },
    /// The subscription fell behind; this many envelopes were dropped for it
    /// and the next receive yields the oldest one still retained.
    Lagged { skipped: u64 },
    /// Nothing new has been published.
    Empty,
    /// The subscription does not exist or was released.
    Closed,
}

impl View for Delivery {
    type V = DeliveryModel;

    open spec fn view(&self) -> DeliveryModel {
        match self {
            Delivery::Message { seq, envelope } => DeliveryModel::Message {
                seq: *seq as nat,
                envelope: envelope@,
            },
            Delivery::Lagged { skipped } => DeliveryModel::Lagged { skipped: *skipped as nat },
            Delivery::Empty => DeliveryModel::Empty,
            Delivery::Closed => DeliveryModel::Closed,
        }
    }
}

/// A bounded fan-out channel: every envelope published reaches each live
/// subscription, oldest first; a subscription that falls more than
/// `capacity` behind is told how many it missed.
pub struct Topic {
    capacity: usize,
    first: u64,
    retained: Vec<Envelope>,
    cursors: Vec<u64>,
    live: Vec<bool>,
    history: Ghost<Seq<EnvelopeModel>>,
    joined: Ghost<Seq<nat>>,
}

impl View for Topic {
    type V = TopicModel;

    closed spec fn view(&self) -> TopicModel {
        TopicModel {
            capacity: self.capacity as nat,
            first: self.first as nat,
            history: self.history@,
            cursors: self.cursors@.map_values(|c: u64| c as nat),
            joined: self.joined@,
            live: self.live@,
        }
    }
}

impl Topic {
    pub closed spec fn well_formed(&self) -> bool {
        &&& self@.wf()
        &&& self.history@.len() <= u64::MAX
        &&& self.retained@.len() == self.history@.len() - self.first
        &&& forall|i: int|
            0 <= i < self.retained@.len() ==> #[trigger] self.retained@[i]@
                == self.history@[self.first + i]
    }

    /// Every well-formed topic has a well-formed model.
    pub proof fn lemma_model_wf(&self)
        requires
            self.well_formed(),
        ensures
            self@.wf(),
            self@.history.len() <= u64::MAX,
    {
    }

    /// A topic with nothing published and no subscriptions.
    pub fn new(capacity: usize) -> (r: Topic)
        requires
            capacity > 0,
        ensures
            r.well_formed(),
            r@ == TopicModel::fresh(capacity as nat),
    {
        let r = Topic {
            capacity,
            first: 0,
            retained: Vec::new(),
            cursors: Vec::new(),
            live: Vec::new(),
            history: Ghost(Seq::empty()),
            joined: Ghost(Seq::empty()),
        };
        proof {
            assert(r@.cursors =~= Seq::<nat>::empty());
            assert(r@.live =~= Seq::<bool>::empty());
        }
        r
    }

    /// How many envelopes were published so far.
    pub fn published_count(&self) -> (r: u64)
        requires
            self.well_formed(),
        ensures
            r == self@.history.len(),
    {
        self.first + self.retained.len() as u64
    }

    /// How many subscriptions are live: released ones do not count.
    pub fn subscriber_count(&self) -> (r: usize)
        requires
            self.well_formed(),
        ensures
            r == count_live(self@.live),
    {
        let n = self.live.len();
        let mut count: usize = 0;
        let mut i: usize = 0;
        while i < n
            invariant
                n == self.live@.len(),
                i <= n,
                count <= i,
                count == count_live(self.live@.subrange(0, i as int)),
            decreases n - i,
        {
            proof {
                assert(self.live@.subrange(0, i as int + 1).drop_last() =~= self.live@.subrange(
                    0,
                    i as int,
                ));
            }
            if self.live[i] {
                count = count + 1;
            }
            i = i + 1;
        }
        proof {
            assert(self.live@.subrange(0, n as int) =~= self.live@);
        }
        count
    }

    /// Publishes `e` to every subscription. It never waits for a slow
    /// subscriber and never fails: past the capacity the oldest retained
    /// envelope is dropped.
    pub fn publish(&mut self, e: Envelope)
        requires
            old(self).well_formed(),
            old(self)@.history.len() < u64::MAX,
        ensures
            final(self).well_formed(),
            final(self)@ == old(self)@.published(e@),
    {
        let ghost e_model = e@;
        if self.retained.len() == self.capacity {
            self.retained.remove(0);
            self.first = self.first + 1;
        }
        self.retained.push(e);
        proof {
            self.history@ = self.history@.push(e_model);
        }
        proof {
            let m = self@;
            assert forall|i: int| 0 <= i < self.retained@.len() implies #[trigger] self.retained@[i]@
                == self.history@[self.first + i] by {
                if i + 1 < self.retained@.len() {
                    assert(self.history@[self.first + i] == old(self).history@[self.first + i]);
                }
            }
            assert(m =~= old(self)@.published(e_model));
        }
    }

    /// Opens a subscription that receives what is published from now on;
    /// `None` only when no further subscription slot can be numbered.
    pub fn subscribe(&mut self) -> (r: Option<usize>)
        requires
            old(self).well_formed(),
        ensures
            final(self).well_formed(),
            r is None <==> old(self)@.cursors.len() == usize::MAX,
            r is None ==> final(self)@ == old(self)@,
            r matches Some(s) ==> s == old(self)@.cursors.len(),
            r is Some ==> final(self)@ == old(self)@.subscribed(),
    {
        let s = self.cursors.len();
        if s == usize::MAX {
            return None;
        }
        let at = self.first + self.retained.len() as u64;
        self.cursors.push(at);
        self.live.push(true);
        proof {
            self.joined@ = self.joined@.push(self.history@.len());
            assert(self@.cursors =~= old(self)@.cursors.push(old(self)@.history.len()));
        }
        Some(s)
    }

    /// Releases subscription `s`; it receives nothing more.
    pub fn release(&mut self, s: usize)
        requires
            old(self).well_formed(),
        ensures
            final(self).well_formed(),
            final(self)@ == old(self)@.released(s as nat),
    {
        if s < self.live.len() {
            self.live.set(s, false);
        }
        proof {
            assert(self@ =~= old(self)@.released(s as nat));
        }
    }

    /// The next thing subscription `s` receives (see `TopicModel::delivery`).
    pub fn receive(&mut self, s: usize) -> (r: Delivery)
        requires
            old(self).well_formed(),
        ensures
            final(self).well_formed(),
            r@ == old(self)@.delivery(s as nat),
            final(self)@ == old(self)@.received(s as nat),
    {
        if s >= self.cursors.len() || !self.live[s] {
            return Delivery::Closed;
        }
        let c = self.cursors[s];
        if c < self.first {
            self.cursors.set(s, self.first);
            proof {
                assert(self@.cursors =~= old(self)@.cursors.update(s as int, old(self)@.first));
            }
            return Delivery::Lagged { skipped: self.first - c };
        }
        let offset = c - self.first;
        if offset >= self.retained.len() as u64 {
            return Delivery::Empty;
        }
        let envelope = self.retained[offset as usize].duplicate();
        self.cursors.set(s, c + 1);
        proof {
            assert(self@.cursors =~= old(self)@.cursors.update(s as int, c as nat + 1));
            assert(self.retained@[offset as int]@ == self.history@[self.first + offset]);
        }
        Delivery::Message { seq: c, envelope }
    }
}

} // verus!
