use vstd::prelude::*;

use crate::envelope::{Envelope, EnvelopeModel};
use crate::topic::{count_live, Delivery, Topic, TopicModel};

verus! {

/// The mathematical value of the room registry: room `i` is named
/// `names[i]` and owns `topics[i]`.
pub struct HubModel {
    pub capacity: nat,
    pub names: Seq<Seq<char>>,
    pub topics: Seq<TopicModel>,
}

impl HubModel {
    pub open spec fn wf(self) -> bool {
        &&& self.capacity > 0
        &&& self.names.len() == self.topics.len()
        &&& forall|i: int, j: int|
            0 <= i < self.names.len() && 0 <= j < self.names.len() && i != j ==> self.names[i]
                != self.names[j]
        &&& forall|i: int| 0 <= i < self.topics.len() ==> (#[trigger] self.topics[i]).wf()
    }

    /// The slot of room `room`: its index when it exists, else the index a
    /// new room gets.
    pub open spec fn slot_of(self, room: Seq<char>) -> nat {
        if self.names.contains(room) {
            choose|i: nat| i < self.names.len() && self.names[i as int] == room
        } else {
            self.names.len()
        }
    }

    /// The registry after a join of `room`: unchanged when the room exists,
    /// else with one new room holding a fresh topic.
    pub open spec fn joined(self, room: Seq<char>) -> HubModel {
        if self.names.contains(room) {
            self
        } else {
            HubModel {
                names: self.names.push(room),
                topics: self.topics.push(TopicModel::fresh(self.capacity)),
                ..self
            }
        }
    }

    /// The registry after topic `slot` changed to `t`.
    pub open spec fn with_topic(self, slot: nat, t: TopicModel) -> HubModel {
        HubModel { topics: self.topics.update(slot as int, t), ..self }
    }
}

/// The process-wide mapping from room name to its topic, with get-or-create
/// semantics. Rooms live as long as the registry.
pub struct Hub {
    capacity: usize,
    names: Vec<String>,
    topics: Vec<Topic>,
}

impl View for Hub {
    type V = HubModel;

    closed spec fn view(&self) -> HubModel {
        HubModel {
            capacity: self.capacity as nat,
            names: self.names@.map_values(|n: String| n@),
            topics: self.topics@.map_values(|t: Topic| t@),
        }
    }
}

impl Hub {
    pub closed spec fn well_formed(&self) -> bool {
        &&& self@.wf()
        &&& self.names@.len() == self.topics@.len()
        &&& forall|i: int|
            0 <= i < self.topics@.len() ==> {
                &&& (#[trigger] self.topics@[i]).well_formed()
                &&& self.topics@[i]@.capacity == self.capacity
            }
    }

    /// Every well-formed registry has a well-formed model.
    pub proof fn lemma_model_wf(&self)
        requires
            self.well_formed(),
        ensures
            self@.wf(),
            forall|i: int|
                0 <= i < self@.topics.len() ==> (#[trigger] self@.topics[i]).history.len()
                    <= u64::MAX,
    {
        assert forall|i: int| 0 <= i < self@.topics.len() implies (#[trigger] self@.topics[
            i
        ]).history.len() <= u64::MAX by {
            self.topics@[i].lemma_model_wf();
        }
    }

    /// An empty registry whose topics hold `capacity` envelopes each.
    pub fn new(capacity: usize) -> (r: Hub)
        requires
            capacity > 0,
        ensures
            r.well_formed(),
            r@.capacity == capacity,
            r@.names.len() == 0,
    {
        let r = Hub { capacity, names: Vec::new(), topics: Vec::new() };
        proof {
            assert(r@.names =~= Seq::<Seq<char>>::empty());
        }
        r
    }

    /// How many rooms exist.
    pub fn room_count(&self) -> (r: usize)
        requires
            self.well_formed(),
        ensures
            r == self@.names.len(),
    {
        self.names.len()
    }

    /// The slot of `room`, creating the room with a fresh topic when it does
    /// not exist yet. Exactly one topic ever exists per room name.
    pub fn join(&mut self, room: &str) -> (slot: usize)
        requires
            old(self).well_formed(),
            old(self)@.names.len() < usize::MAX,
        ensures
            final(self).well_formed(),
            final(self)@ == old(self)@.joined(room@),
            slot == old(self)@.slot_of(room@),
            slot < final(self)@.names.len(),
            final(self)@.names[slot as int] == room@,
    {
        let key = room.to_string();
        let n = self.names.len();
        let mut i: usize = 0;
        while i < n
            invariant
                n == self.names@.len(),
                *self == *old(self),
                self.well_formed(),
                key@ == room@,
                forall|j: int| 0 <= j < i ==> self@.names[j] != room@,
            decreases n - i,
        {
            if self.names[i] == key {
                proof {
                    assert(self@.names[i as int] == room@);
                    assert(self@.names.contains(room@));
                    let c = self@.slot_of(room@);
                    assert(self@.names[c as int] == room@);
                    assert(c == i);
                }
                return i;
            }
            i = i + 1;
        }
        proof {
            assert(!self@.names.contains(room@));
        }
        self.names.push(key);
        self.topics.push(Topic::new(self.capacity));
        proof {
            assert(self@.names =~= old(self)@.names.push(room@));
            assert(self@.topics =~= old(self)@.topics.push(TopicModel::fresh(self.capacity as nat)));
            assert(self@ =~= old(self)@.joined(room@));
        }
        n
    }

    /// Publishes `e` in the room at `slot`; no other room changes.
    pub fn publish(&mut self, slot: usize, e: Envelope)
        requires
            old(self).well_formed(),
            slot < old(self)@.names.len(),
            old(self)@.topics[slot as int].history.len() < u64::MAX,
        ensures
            final(self).well_formed(),
            final(self)@ == old(self)@.with_topic(
                slot as nat,
                old(self)@.topics[slot as int].published(e@),
            ),
    {
        self.topics[slot].publish(e);
        proof {
            assert(self@.topics =~= old(self)@.topics.update(
                slot as int,
                old(self)@.topics[slot as int].published(e@),
            ));
        }
    }

    /// How many envelopes were published in the room at `slot`.
    pub fn published_count(&self, slot: usize) -> (r: u64)
        requires
            self.well_formed(),
            slot < self@.names.len(),
        ensures
            r == self@.topics[slot as int].history.len(),
    {
        self.topics[slot].published_count()
    }

    /// How many live subscriptions the room at `slot` has.
    pub fn subscriber_count(&self, slot: usize) -> (r: usize)
        requires
            self.well_formed(),
            slot < self@.names.len(),
        ensures
            r == count_live(self@.topics[slot as int].live),
    {
        self.topics[slot].subscriber_count()
    }

    /// Opens a subscription in the room at `slot` (see `Topic::subscribe`).
    pub fn subscribe(&mut self, slot: usize) -> (r: Option<usize>)
        requires
            old(self).well_formed(),
            slot < old(self)@.names.len(),
        ensures
            final(self).well_formed(),
            r is None <==> old(self)@.topics[slot as int].cursors.len() == usize::MAX,
            r is None ==> final(self)@ == old(self)@,
            r matches Some(s) ==> s == old(self)@.topics[slot as int].cursors.len(),
            r is Some ==> final(self)@ == old(self)@.with_topic(
                slot as nat,
                old(self)@.topics[slot as int].subscribed(),
            ),
    {
        let r = self.topics[slot].subscribe();
        proof {
            if r is Some {
                assert(self@.topics =~= old(self)@.topics.update(
                    slot as int,
                    old(self)@.topics[slot as int].subscribed(),
                ));
            } else {
                assert(self@.topics =~= old(self)@.topics);
            }
        }
        r
    }

    /// Releases subscription `s` of the room at `slot`.
    pub fn release(&mut self, slot: usize, s: usize)
        requires
            old(self).well_formed(),
            slot < old(self)@.names.len(),
        ensures
            final(self).well_formed(),
            final(self)@ == old(self)@.with_topic(
                slot as nat,
                old(self)@.topics[slot as int].released(s as nat),
            ),
    {
        self.topics[slot].release(s);
        proof {
            assert(self@.topics =~= old(self)@.topics.update(
                slot as int,
                old(self)@.topics[slot as int].released(s as nat),
            ));
        }
    }

    /// The next thing subscription `s` of the room at `slot` receives.
    pub fn receive(&mut self, slot: usize, s: usize) -> (r: Delivery)
        requires
            old(self).well_formed(),
            slot < old(self)@.names.len(),
        ensures
            final(self).well_formed(),
            r@ == old(self)@.topics[slot as int].delivery(s as nat),
            final(self)@ == old(self)@.with_topic(
                slot as nat,
                old(self)@.topics[slot as int].received(s as nat),
            ),
    {
        let r = self.topics[slot].receive(s);
        proof {
            assert(self@.topics =~= old(self)@.topics.update(
                slot as int,
                old(self)@.topics[slot as int].received(s as nat),
            ));
        }
        r
    }
}

/// Joining a room that was just joined changes nothing and gives the same
/// slot, and after any join exactly one room carries that name: racing
/// creators of one room share a single topic.
pub proof fn lemma_one_topic_per_room(h: HubModel, room: Seq<char>)
    requires
        h.wf(),
    ensures
        h.joined(room).wf(),
        h.joined(room).joined(room) == h.joined(room),
        h.joined(room).slot_of(room) == h.slot_of(room),
        h.slot_of(room) < h.joined(room).names.len(),
        h.joined(room).names[h.slot_of(room) as int] == room,
        forall|i: int|
            0 <= i < h.joined(room).names.len() && h.joined(room).names[i] == room ==> i
                == h.slot_of(room),
{
    let h1 = h.joined(room);
    if h.names.contains(room) {
        let c = h.slot_of(room);
        assert(h.names[c as int] == room);
    } else {
        assert(h1.names[h.names.len() as int] == room);
        assert(h1.names.contains(room));
        let c = h1.slot_of(room);
        assert(h1.names[c as int] == room);
        assert forall|i: int| 0 <= i < h1.topics.len() implies (#[trigger] h1.topics[i]).wf() by {
            if i < h.topics.len() {
                assert(h1.topics[i] == h.topics[i]);
            }
        }
    }
    assert(h1.names.contains(room));
}

/// Rooms are isolated: publishing in one room leaves every other room's
/// topic, and so what each of its subscriptions receives next, unchanged.
pub proof fn lemma_room_isolation(h: HubModel, r1: Seq<char>, r2: Seq<char>, e: EnvelopeModel, s: nat)
    requires
        h.wf(),
        h.names.contains(r1),
        h.names.contains(r2),
        r1 != r2,
    ensures
        h.slot_of(r1) != h.slot_of(r2),
        ({
            let p = h.with_topic(h.slot_of(r1), h.topics[h.slot_of(r1) as int].published(e));
            &&& p.topics[h.slot_of(r2) as int] == h.topics[h.slot_of(r2) as int]
            &&& p.topics[h.slot_of(r2) as int].delivery(s) == h.topics[h.slot_of(
                r2,
            ) as int].delivery(s)
        }),
{
    let a = h.slot_of(r1);
    let b = h.slot_of(r2);
    assert(h.names[a as int] == r1);
    assert(h.names[b as int] == r2);
}

} // verus!
