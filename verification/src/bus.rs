//! Publish and subscribe, over Consul events.
//!
//! An event has no place for a routing key or for who published it, so a payload travels in an
//! envelope with both. What goes into an envelope is a [`Parcel`]. Writing and reading the envelope
//! itself is up to the caller: what is published here is the envelope, and what a subscription hands
//! out first is the envelope too.

use std::collections::VecDeque;

use vstd::prelude::*;
use vstd::string::*;

use crate::client::{
    base64_bytes, carried, decode_event_payload, events_change, ConsulClient, UserEvent, POLL_GRACE_SECS,
};
use crate::error::{internal, ClusterError, Fault};
use crate::http::{text_of, HttpRequest, Sent};
use crate::peers::{poll_backoff, PollFailure};
use crate::text::{same_text, texts};

verus! {

/// How many events a subscription remembers, so as not to deliver them again.
pub const MEMORY: usize = 256;

/// A message that was published.
#[derive(Debug)]
pub struct PublishedMessage {
    pub topic: String,
    pub routing_key: Option<String>,
    pub payload: Vec<u8>,
    /// The node that hands the message out.
    pub from_node: String,
}

/// A [`PublishedMessage`] in the model.
pub struct MessageModel {
    pub topic: Seq<char>,
    pub routing_key: Option<Seq<char>>,
    pub payload: Seq<u8>,
    pub from_node: Seq<char>,
}

impl View for PublishedMessage {
    type V = MessageModel;

    open spec fn view(&self) -> MessageModel {
        MessageModel {
            topic: self.topic@,
            routing_key: text_of(self.routing_key),
            payload: self.payload@,
            from_node: self.from_node@,
        }
    }
}

/// What travels in the envelope of an event.
#[derive(Clone, Debug)]
pub struct Parcel {
    /// The node that published it, where the envelope names one.
    pub publisher: Option<String>,
    pub routing_key: Option<String>,
    pub payload: Vec<u8>,
}

/// A [`Parcel`] in the model.
pub struct ParcelModel {
    pub publisher: Option<Seq<char>>,
    pub routing_key: Option<Seq<char>>,
    pub payload: Seq<u8>,
}

impl View for Parcel {
    type V = ParcelModel;

    open spec fn view(&self) -> ParcelModel {
        ParcelModel {
            publisher: text_of(self.publisher),
            routing_key: text_of(self.routing_key),
            payload: self.payload@,
        }
    }
}

/// Publishes a payload on a topic, given its envelope, or why there is none.
pub fn publish(client: &ConsulClient, topic: &str, envelope: Result<Vec<u8>, String>) -> (r: Result<
    HttpRequest,
    ClusterError,
>)
    ensures
        match envelope {
            Ok(wire) => r matches Ok(request) && request@ == client@.fire_event(topic@, wire@),
            Err(e) => r matches Err(x) && x@ == Fault::Internal("publish envelope: "@ + e@),
        },
{
    match envelope {
        Ok(wire) => Ok(client.fire_event(topic, wire)),
        Err(e) => Err(internal("publish envelope: ", e.as_str())),
    }
}

/// An event that was not delivered before: its id, and the envelope that it carries.
pub struct FreshEvent {
    pub id: String,
    pub envelope: Vec<u8>,
}

/// A [`FreshEvent`] in the model.
pub struct FreshModel {
    pub id: Seq<char>,
    pub envelope: Seq<u8>,
}

impl View for FreshEvent {
    type V = FreshModel;

    open spec fn view(&self) -> FreshModel {
        FreshModel { id: self.id@, envelope: self.envelope@ }
    }
}

/// Fresh events in the model.
pub open spec fn fresh_models(events: Seq<FreshEvent>) -> Seq<FreshModel> {
    events.map_values(|e: FreshEvent| e@)
}

/// The memory of a subscription after it has taken in an id: the oldest one goes when it is full.
pub open spec fn remember(seen: Seq<Seq<char>>, id: Seq<char>) -> Seq<Seq<char>> {
    if seen.len() >= MEMORY {
        seen.drop_first().push(id)
    } else {
        seen.push(id)
    }
}

/// What a subscription does with a batch of events, one after the other: what it then remembers, and
/// which of them are fresh.
pub open spec fn sift(seen: Seq<Seq<char>>, events: Seq<UserEvent>) -> (Seq<Seq<char>>, Seq<FreshModel>)
    decreases events.len(),
{
    if events.len() == 0 {
        (seen, Seq::empty())
    } else {
        let (known, fresh) = sift(seen, events.drop_last());
        let event = events.last();
        if known.contains(event.id@) {
            (known, fresh)
        } else {
            (
                remember(known, event.id@),
                fresh.push(
                    FreshModel { id: event.id@, envelope: carried(text_of(event.payload_b64)) },
                ),
            )
        }
    }
}

/// What came out of an envelope, in the model.
pub open spec fn opened(o: Option<Parcel>) -> Option<ParcelModel> {
    match o {
        Some(parcel) => Some(parcel@),
        None => None,
    }
}

/// A subscription to a topic.
pub struct Subscription {
    topic: String,
    routing_key: Option<String>,
    node_id: String,
    wait_seconds: u64,
    index: u64,
    seen: VecDeque<String>,
}

/// A [`Subscription`] in the model.
pub struct SubscriptionModel {
    pub topic: Seq<char>,
    /// The routing key that messages must have, if it matters.
    pub routing_key: Option<Seq<char>>,
    pub node_id: Seq<char>,
    pub wait_seconds: u64,
    pub index: u64,
    /// The ids of the events that were taken in last, the oldest first.
    pub seen: Seq<Seq<char>>,
}

impl View for Subscription {
    type V = SubscriptionModel;

    closed spec fn view(&self) -> SubscriptionModel {
        SubscriptionModel {
            topic: self.topic@,
            routing_key: text_of(self.routing_key),
            node_id: self.node_id@,
            wait_seconds: self.wait_seconds,
            index: self.index,
            seen: texts(self.seen@),
        }
    }
}

impl SubscriptionModel {
    /// Whether a message with that routing key is for this subscription.
    pub open spec fn wants(self, routing_key: Option<Seq<char>>) -> bool {
        self.routing_key is Some ==> routing_key == self.routing_key
    }

    /// What a subscriber gets of what came out of an envelope: nothing where it could not be opened,
    /// where this node published it itself, or where it is not for this subscription.
    pub open spec fn delivery(self, content: Option<ParcelModel>) -> Option<MessageModel> {
        match content {
            Some(parcel) => if parcel.publisher != Some(self.node_id) && self.wants(
                parcel.routing_key,
            ) {
                Some(
                    MessageModel {
                        topic: self.topic,
                        routing_key: parcel.routing_key,
                        payload: parcel.payload,
                        from_node: self.node_id,
                    },
                )
            } else {
                None
            },
            None => None,
        }
    }
}

fn remembers(seen: &VecDeque<String>, id: &str) -> (r: bool)
    ensures
        r == texts(seen@).contains(id@),
{
    let mut i: usize = 0;
    while i < seen.len()
        invariant
            i <= seen@.len(),
            forall|j: int| 0 <= j < i ==> (#[trigger] texts(seen@)[j]) != id@,
        decreases seen@.len() - i,
    {
        if same_text(seen[i].as_str(), id) {
            assert(texts(seen@)[i as int] == id@);
            return true;
        }
        assert(texts(seen@)[i as int] == seen@[i as int]@);
        i += 1;
    }
    false
}

impl Subscription {
    /// A subscription that has not polled yet. With a routing key, only messages with exactly that
    /// key are delivered.
    pub fn new(topic: String, routing_key: Option<String>, node_id: String, wait_seconds: u64) -> (r:
        Subscription)
        ensures
            r@ == (SubscriptionModel {
                topic: topic@,
                routing_key: text_of(routing_key),
                node_id: node_id@,
                wait_seconds,
                index: 0,
                seen: Seq::empty(),
            }),
    {
        let seen: VecDeque<String> = VecDeque::with_capacity(MEMORY);
        assert(texts(seen@) =~= Seq::<Seq<char>>::empty());
        Subscription { topic, routing_key, node_id, wait_seconds, index: 0, seen }
    }

    /// The index that the next poll goes on from.
    pub fn index(&self) -> (r: u64)
        ensures
            r == self@.index,
    {
        self.index
    }

    /// The next poll.
    pub fn poll(&self, client: &ConsulClient) -> (r: HttpRequest)
        requires
            self@.wait_seconds + POLL_GRACE_SECS <= u64::MAX,
        ensures
            r@ == client@.list_events(self@.topic, self@.index, self@.wait_seconds),
    {
        client.list_events(self.topic.as_str(), self.index, self.wait_seconds)
    }

    /// Takes in a batch of events: those that are fresh, with what they carry. Consul sends events
    /// again with every poll.
    pub fn receive(&mut self, events: &Vec<UserEvent>, new_index: u64) -> (r: Vec<FreshEvent>)
        ensures
            fresh_models(r@) == sift(old(self)@.seen, events@).1,
            final(self)@ == (SubscriptionModel {
                index: new_index,
                seen: sift(old(self)@.seen, events@).0,
                ..old(self)@
            }),
    {
        let ghost before = self@;
        let mut fresh: Vec<FreshEvent> = Vec::new();
        self.index = new_index;
        let mut i: usize = 0;
        assert(fresh_models(fresh@) =~= sift(before.seen, events@.take(0)).1);
        while i < events.len()
            invariant
                i <= events.len(),
                self@ == (SubscriptionModel {
                    index: new_index,
                    seen: sift(before.seen, events@.take(i as int)).0,
                    ..before
                }),
                fresh_models(fresh@) == sift(before.seen, events@.take(i as int)).1,
            decreases events.len() - i,
        {
            let event = &events[i];
            let ghost seen = self@.seen;
            proof {
                let next = events@.take(i + 1);
                assert(next.drop_last() =~= events@.take(i as int));
                assert(next.last() == events@[i as int]);
            }
            if !remembers(&self.seen, event.id.as_str()) {
                if self.seen.len() >= MEMORY {
                    let _ = self.seen.pop_front();
                    assert(texts(self.seen@) =~= seen.drop_first());
                }
                let ghost kept = self.seen@;
                self.seen.push_back(event.id.clone());
                assert(texts(self.seen@) =~= texts(kept).push(event.id@));
                let ghost known = fresh@;
                fresh.push(
                    FreshEvent {
                        id: event.id.clone(),
                        envelope: decode_event_payload(&event.payload_b64),
                    },
                );
                assert(fresh_models(fresh@) =~= fresh_models(known).push(fresh@.last()@));
            }
            i += 1;
        }
        assert(events@.take(i as int) =~= events@);
        fresh
    }

    /// Takes in what came of a poll: the fresh events that it shows. A poll that failed changes
    /// nothing, and is tried again after a pause.
    pub fn poll_reply(&mut self, sent: Sent<Vec<UserEvent>>) -> (r: Result<
        Vec<FreshEvent>,
        PollFailure,
    >)
        ensures
            match events_change(sent, old(self)@.index) {
                Ok((events, new_index)) => {
                    &&& r matches Ok(fresh) && fresh_models(fresh@) == sift(
                        old(self)@.seen,
                        events@,
                    ).1
                    &&& final(self)@ == SubscriptionModel {
                        index: new_index,
                        seen: sift(old(self)@.seen, events@).0,
                        ..old(self)@
                    }
                },
                Err(e) => {
                    &&& r matches Err(failure) && failure.error@ == e && failure.is_backoff()
                    &&& final(self)@ == old(self)@
                },
            },
    {
        match ConsulClient::list_events_reply(sent, self.index) {
            Ok((events, new_index)) => Ok(self.receive(&events, new_index)),
            Err(error) => Err(PollFailure { error, pause: poll_backoff() }),
        }
    }

    /// Turns what came out of the envelope of a fresh event into a message, if it is for this
    /// subscription. What this node published itself is skipped. An envelope that could not be
    /// opened is dropped: most likely somebody else fires events on the topic.
    pub fn deliver(&self, content: Option<Parcel>) -> (r: Option<PublishedMessage>)
        ensures
            match r {
                Some(message) => self@.delivery(opened(content)) == Some(message@),
                None => self@.delivery(opened(content)) is None,
            },
            content matches Some(parcel) && text_of(parcel.publisher) == Some(self@.node_id) ==> r
                is None,
    {
        match content {
            Some(parcel) => {
                let own: bool = match &parcel.publisher {
                    Some(node) => same_text(node.as_str(), self.node_id.as_str()),
                    None => false,
                };
                let wanted: bool = match &self.routing_key {
                    Some(want) => match &parcel.routing_key {
                        Some(key) => same_text(key.as_str(), want.as_str()),
                        None => false,
                    },
                    None => true,
                };
                if wanted && !own {
                    Some(
                        PublishedMessage {
                            topic: self.topic.clone(),
                            routing_key: parcel.routing_key,
                            payload: parcel.payload,
                            from_node: self.node_id.clone(),
                        },
                    )
                } else {
                    None
                }
            },
            None => None,
        }
    }
}

/// Whether a subscription remembers every event of a batch.
pub open spec fn remembers_all(seen: Seq<Seq<char>>, events: Seq<UserEvent>) -> bool {
    forall|i: int| 0 <= i < events.len() ==> seen.contains((#[trigger] events[i]).id@)
}

/// The memory of a subscription never holds more than its size, and nothing twice.
pub proof fn memory_stays_small_and_distinct(seen: Seq<Seq<char>>, events: Seq<UserEvent>)
    requires
        seen.len() <= MEMORY,
        seen.no_duplicates(),
    ensures
        sift(seen, events).0.len() <= MEMORY,
        sift(seen, events).0.no_duplicates(),
    decreases events.len(),
{
    if events.len() > 0 {
        memory_stays_small_and_distinct(seen, events.drop_last());
        let known = sift(seen, events.drop_last()).0;
        let id = events.last().id@;
        if !known.contains(id) {
            let after = remember(known, id);
            assert forall|i: int, j: int|
                0 <= i < after.len() && 0 <= j < after.len() && i != j implies after[i]
                != after[j] by {
                let shift = if known.len() >= MEMORY { 1int } else { 0 };
                if i < after.len() - 1 {
                    assert(after[i] == known[i + shift]);
                }
                if j < after.len() - 1 {
                    assert(after[j] == known[j + shift]);
                }
            }
        }
    }
}

proof fn lemma_known_batch(known: Seq<Seq<char>>, events: Seq<UserEvent>)
    ensures
        remembers_all(known, events) ==> sift(known, events) == (known, Seq::<FreshModel>::empty()),
        sift(known, events).1.len() == 0 ==> sift(known, events).0 == known && remembers_all(
            known,
            events,
        ),
    decreases events.len(),
{
    if events.len() > 0 {
        let rest = events.drop_last();
        lemma_known_batch(known, rest);
        if remembers_all(known, events) {
            assert forall|i: int| 0 <= i < rest.len() implies known.contains(
                (#[trigger] rest[i]).id@,
            ) by {
                assert(rest[i] == events[i]);
            }
            assert(known.contains(events[events.len() - 1].id@));
        }
        if sift(known, events).1.len() == 0 {
            assert forall|i: int| 0 <= i < events.len() implies known.contains(
                (#[trigger] events[i]).id@,
            ) by {
                if i < rest.len() {
                    assert(rest[i] == events[i]);
                }
            }
        }
    }
}

/// A batch that Consul sends again delivers nothing, exactly if the subscription still remembers
/// all of it.
pub proof fn a_replay_is_silent_exactly_if_remembered(seen: Seq<Seq<char>>, events: Seq<UserEvent>)
    ensures
        ({
            let known = sift(seen, events).0;
            sift(known, events).1 == Seq::<FreshModel>::empty() <==> remembers_all(known, events)
        }),
{
    let known = sift(seen, events).0;
    lemma_known_batch(known, events);
}

/// As long as the fresh events fit into the memory beside what it holds, everything is remembered:
/// what was known and the whole batch. So its replay delivers nothing.
pub proof fn nothing_is_forgotten_while_there_is_room(seen: Seq<Seq<char>>, events: Seq<UserEvent>)
    requires
        seen.len() + sift(seen, events).1.len() <= MEMORY,
    ensures
        seen.is_prefix_of(sift(seen, events).0),
        sift(seen, events).0.len() == seen.len() + sift(seen, events).1.len(),
        remembers_all(sift(seen, events).0, events),
        sift(sift(seen, events).0, events) == (sift(seen, events).0, Seq::<FreshModel>::empty()),
    decreases events.len(),
{
    let known = sift(seen, events).0;
    if events.len() > 0 {
        let rest = events.drop_last();
        let before = sift(seen, rest).0;
        nothing_is_forgotten_while_there_is_room(seen, rest);
        let id = events.last().id@;
        if !before.contains(id) {
            assert(known == before.push(id));
            assert(known[before.len() as int] == id);
            assert(forall|i: int| 0 <= i < before.len() ==> #[trigger] known[i] == before[i]);
            assert(seen =~= known.subrange(0, seen.len() as int)) by {
                assert(seen == before.subrange(0, seen.len() as int));
                assert(forall|i: int| 0 <= i < seen.len() ==> seen[i] == #[trigger] before[i]);
            }
        }
        assert forall|i: int| 0 <= i < events.len() implies known.contains(
            (#[trigger] events[i]).id@,
        ) by {
            if i < rest.len() {
                assert(rest[i] == events[i]);
                let k = choose|k: int| 0 <= k < before.len() && before[k] == rest[i].id@;
                assert(known[k] == rest[i].id@);
            }
        }
    } else {
        assert(seen =~= known.subrange(0, seen.len() as int));
    }
    lemma_known_batch(known, events);
}

/// Nothing that a subscription remembers is delivered again, whatever else arrives before it: a
/// fresh event was not remembered when it arrived.
pub proof fn a_remembered_event_is_not_fresh(seen: Seq<Seq<char>>, events: Seq<UserEvent>, event: UserEvent)
    ensures
        ({
            let (known, fresh) = sift(seen, events);
            let (after, more) = sift(seen, events.push(event));
            if known.contains(event.id@) {
                after == known && more == fresh
            } else {
                after.contains(event.id@) && more.len() == fresh.len() + 1 && more.last().id
                    == event.id@
            }
        }),
{
    assert(events.push(event).drop_last() =~= events);
    let known = sift(seen, events).0;
    if !known.contains(event.id@) {
        let after = remember(known, event.id@);
        assert(after[after.len() - 1] == event.id@);
    }
}

/// Taking in two batches one after the other is taking in both at once.
pub proof fn sifting_goes_on_where_it_stopped(seen: Seq<Seq<char>>, a: Seq<UserEvent>, b: Seq<UserEvent>)
    ensures
        ({
            let (known, fresh) = sift(seen, a);
            let (after, more) = sift(known, b);
            sift(seen, a + b) == (after, fresh + more)
        }),
    decreases b.len(),
{
    let (known, fresh) = sift(seen, a);
    if b.len() == 0 {
        assert(a + b =~= a);
        assert(fresh + Seq::<FreshModel>::empty() =~= fresh);
    } else {
        assert((a + b).drop_last() =~= a + b.drop_last());
        assert((a + b).last() == b.last());
        sifting_goes_on_where_it_stopped(seen, a, b.drop_last());
        let (before, some) = sift(known, b.drop_last());
        if !before.contains(b.last().id@) {
            let new = FreshModel {
                id: b.last().id@,
                envelope: carried(text_of(b.last().payload_b64)),
            };
            assert((fresh + some).push(new) =~= fresh + some.push(new));
        }
    }
}

/// Whether an event with that id is among some events.
pub open spec fn has_id(events: Seq<UserEvent>, id: Seq<char>) -> bool {
    exists|i: int| 0 <= i < events.len() && (#[trigger] events[i]).id@ == id
}

/// The first event of each id, in their order.
pub open spec fn firsts(events: Seq<UserEvent>) -> Seq<UserEvent>
    decreases events.len(),
{
    if events.len() == 0 {
        Seq::empty()
    } else if has_id(events.drop_last(), events.last().id@) {
        firsts(events.drop_last())
    } else {
        firsts(events.drop_last()).push(events.last())
    }
}

/// The ids of some events.
pub open spec fn ids_of(events: Seq<UserEvent>) -> Seq<Seq<char>> {
    events.map_values(|e: UserEvent| e.id@)
}

/// What some events carry.
pub open spec fn carried_by(events: Seq<UserEvent>) -> Seq<FreshModel> {
    events.map_values(
        |e: UserEvent| FreshModel { id: e.id@, envelope: carried(text_of(e.payload_b64)) },
    )
}

proof fn lemma_has_id_grows(events: Seq<UserEvent>, id: Seq<char>)
    requires
        events.len() > 0,
    ensures
        has_id(events, id) == (has_id(events.drop_last(), id) || events.last().id@ == id),
{
    let rest = events.drop_last();
    if has_id(events, id) {
        let k = choose|k: int| 0 <= k < events.len() && (#[trigger] events[k]).id@ == id;
        if k < rest.len() {
            assert(rest[k] == events[k]);
        }
    }
    if has_id(rest, id) {
        let k = choose|k: int| 0 <= k < rest.len() && (#[trigger] rest[k]).id@ == id;
        assert(events[k] == rest[k]);
    }
    assert(events[events.len() - 1] == events.last());
}

/// The first events have every id that there is, each once: there are as many as different ids.
pub proof fn firsts_have_each_id_once(events: Seq<UserEvent>)
    ensures
        ids_of(firsts(events)).no_duplicates(),
        forall|id: Seq<char>| #[trigger] ids_of(firsts(events)).contains(id) == has_id(events, id),
    decreases events.len(),
{
    let all = ids_of(firsts(events));
    if events.len() == 0 {
        assert forall|id: Seq<char>| #[trigger] all.contains(id) == has_id(events, id) by {}
    } else {
        let rest = events.drop_last();
        let last = events.last().id@;
        let before = ids_of(firsts(rest));
        firsts_have_each_id_once(rest);
        if has_id(rest, last) {
            assert forall|id: Seq<char>| #[trigger] all.contains(id) == has_id(events, id) by {
                lemma_has_id_grows(events, id);
                assert(before.contains(id) == has_id(rest, id));
            }
        } else {
            assert(all =~= before.push(last));
            assert(!before.contains(last));
            assert forall|id: Seq<char>| #[trigger] all.contains(id) == has_id(events, id) by {
                lemma_has_id_grows(events, id);
                assert(before.contains(id) == has_id(rest, id));
                if before.contains(id) {
                    let k = choose|k: int| 0 <= k < before.len() && before[k] == id;
                    assert(all[k] == id);
                }
                assert(all[before.len() as int] == last);
                if all.contains(id) {
                    let k = choose|k: int| 0 <= k < all.len() && all[k] == id;
                    if k < before.len() {
                        assert(before[k] == id);
                    }
                }
            }
            assert forall|i: int, j: int|
                0 <= i < all.len() && 0 <= j < all.len() && i != j implies all[i] != all[j] by {
                if i < before.len() {
                    assert(all[i] == before[i]);
                }
                if j < before.len() {
                    assert(all[j] == before[j]);
                }
            }
        }
    }
}

/// As long as there are no more different ids than the memory holds, the fresh events are exactly
/// the first event of each id, in their order.
pub proof fn the_first_of_each_id_is_fresh(events: Seq<UserEvent>)
    requires
        firsts(events).len() <= MEMORY,
    ensures
        sift(Seq::empty(), events) == (ids_of(firsts(events)), carried_by(firsts(events))),
    decreases events.len(),
{
    if events.len() == 0 {
        assert(ids_of(firsts(events)) =~= Seq::<Seq<char>>::empty());
        assert(carried_by(firsts(events)) =~= Seq::<FreshModel>::empty());
    } else {
        let rest = events.drop_last();
        let last = events.last();
        the_first_of_each_id_is_fresh(rest);
        firsts_have_each_id_once(rest);
        assert(ids_of(firsts(rest)).contains(last.id@) == has_id(rest, last.id@));
        if !has_id(rest, last.id@) {
            assert(ids_of(firsts(events)) =~= ids_of(firsts(rest)).push(last.id@));
            assert(carried_by(firsts(events)) =~= carried_by(firsts(rest)).push(
                FreshModel { id: last.id@, envelope: carried(text_of(last.payload_b64)) },
            ));
        }
    }
}

/// The events of all polls that succeeded, one after the other.
pub open spec fn events_over(sent: Seq<Sent<Vec<UserEvent>>>) -> Seq<UserEvent>
    decreases sent.len(),
{
    if sent.len() == 0 {
        Seq::empty()
    } else {
        let before = events_over(sent.drop_last());
        match events_change(sent.last(), 0) {
            Ok((events, _)) => before + events@,
            Err(_) => before,
        }
    }
}

impl SubscriptionModel {
    /// What a subscription becomes and which events are fresh, as its polls end in `sent`.
    pub open spec fn received(self, sent: Seq<Sent<Vec<UserEvent>>>) -> (
        SubscriptionModel,
        Seq<FreshModel>,
    )
        decreases sent.len(),
    {
        if sent.len() == 0 {
            (self, Seq::empty())
        } else {
            let (before, fresh) = self.received(sent.drop_last());
            match events_change(sent.last(), before.index) {
                Ok((events, new_index)) => {
                    let (seen, more) = sift(before.seen, events@);
                    (SubscriptionModel { index: new_index, seen, ..before }, fresh + more)
                },
                Err(_) => (before, fresh),
            }
        }
    }

    /// What a subscriber gets of some fresh events, where `open` opens envelopes.
    pub open spec fn deliveries(
        self,
        fresh: Seq<FreshModel>,
        open: spec_fn(Seq<u8>) -> Option<ParcelModel>,
    ) -> Seq<MessageModel>
        decreases fresh.len(),
    {
        if fresh.len() == 0 {
            Seq::empty()
        } else {
            let before = self.deliveries(fresh.drop_last(), open);
            match self.delivery(open(fresh.last().envelope)) {
                Some(message) => before.push(message),
                None => before,
            }
        }
    }
}

/// What a subscription remembers and what is fresh after some polls goes by all their events; what it
/// is for stays.
pub proof fn polls_add_up(subscription: SubscriptionModel, sent: Seq<Sent<Vec<UserEvent>>>)
    ensures
        ({
            let (after, fresh) = subscription.received(sent);
            &&& sift(subscription.seen, events_over(sent)) == (after.seen, fresh)
            &&& after == SubscriptionModel { index: after.index, seen: after.seen, ..subscription }
        }),
    decreases sent.len(),
{
    if sent.len() > 0 {
        polls_add_up(subscription, sent.drop_last());
        let (before, _) = subscription.received(sent.drop_last());
        match events_change(sent.last(), before.index) {
            Ok((events, _)) => {
                sifting_goes_on_where_it_stopped(
                    subscription.seen,
                    events_over(sent.drop_last()),
                    events@,
                );
            },
            Err(_) => {},
        }
    }
}

proof fn lemma_same_deliveries(
    a: SubscriptionModel,
    b: SubscriptionModel,
    fresh: Seq<FreshModel>,
    open: spec_fn(Seq<u8>) -> Option<ParcelModel>,
)
    requires
        a.topic == b.topic,
        a.routing_key == b.routing_key,
        a.node_id == b.node_id,
    ensures
        a.deliveries(fresh, open) == b.deliveries(fresh, open),
    decreases fresh.len(),
{
    if fresh.len() > 0 {
        lemma_same_deliveries(a, b, fresh.drop_last(), open);
    }
}

/// Over all polls of a subscription, as long as there are no more different ids than its memory
/// holds, a subscriber gets what comes of the first event of each id, in their order: one message
/// where its envelope opens, another node published it and its routing key matches, else nothing.
/// Polls that failed between make no difference.
pub proof fn a_subscriber_gets_each_event_once(
    subscription: SubscriptionModel,
    sent: Seq<Sent<Vec<UserEvent>>>,
    open: spec_fn(Seq<u8>) -> Option<ParcelModel>,
)
    requires
        subscription.seen == Seq::<Seq<char>>::empty(),
        firsts(events_over(sent)).len() <= MEMORY,
    ensures
        ({
            let (after, fresh) = subscription.received(sent);
            &&& fresh == carried_by(firsts(events_over(sent)))
            &&& after.deliveries(fresh, open) == subscription.deliveries(
                carried_by(firsts(events_over(sent))),
                open,
            )
        }),
{
    polls_add_up(subscription, sent);
    the_first_of_each_id_is_fresh(events_over(sent));
    let (after, fresh) = subscription.received(sent);
    lemma_same_deliveries(after, subscription, fresh, open);
}

/// The last 256 of some ids, or all of them where there are fewer.
pub open spec fn last_256(ids: Seq<Seq<char>>) -> Seq<Seq<char>> {
    if ids.len() <= 256 {
        ids
    } else {
        ids.skip(ids.len() - 256)
    }
}

/// A subscription remembers the last 256 events that were fresh, in their order, and no other.
pub proof fn the_last_events_are_remembered(seen: Seq<Seq<char>>, events: Seq<UserEvent>)
    requires
        seen.len() <= 256,
    ensures
        sift(seen, events).0 == last_256(
            seen + sift(seen, events).1.map_values(|fresh: FreshModel| fresh.id),
        ),
    decreases events.len(),
{
    let ids = |fresh: Seq<FreshModel>| fresh.map_values(|fresh: FreshModel| fresh.id);
    let (after, more) = sift(seen, events);
    if events.len() == 0 {
        assert(seen + ids(more) =~= seen);
    } else {
        the_last_events_are_remembered(seen, events.drop_last());
        let (known, fresh) = sift(seen, events.drop_last());
        let id = events.last().id@;
        let all = seen + ids(fresh);
        if !known.contains(id) {
            assert(seen + ids(more) =~= all.push(id));
            if all.len() < 256 {
                assert(after =~= all.push(id));
            } else {
                assert(all.len() == 256 ==> known =~= all.skip(0));
                assert(known.len() == 256);
                assert(after =~= all.push(id).skip(all.len() + 1 - 256));
            }
        }
    }
}

/// An event is fresh exactly if its id is not remembered, and it is handed on with its id and with all
/// the bytes that its payload stands for.
pub proof fn an_event_is_fresh_unless_remembered(seen: Seq<Seq<char>>, event: UserEvent, bytes: Seq<u8>)
    ensures
        seen.contains(event.id@) ==> sift(seen, seq![event]) == (seen, Seq::<FreshModel>::empty()),
        !seen.contains(event.id@) ==> sift(seen, seq![event]).1.len() == 1 && sift(
            seen,
            seq![event],
        ).1[0].id == event.id@,
        !seen.contains(event.id@) && (event.payload_b64 matches Some(text) && base64_bytes(text@)
            == Some(bytes)) ==> sift(seen, seq![event]).1[0].envelope == bytes,
        !seen.contains(event.id@) && event.payload_b64 is None ==> sift(
            seen,
            seq![event],
        ).1[0].envelope.len() == 0,
{
    let one = seq![event];
    assert(one.drop_last() =~= Seq::<UserEvent>::empty());
    assert(sift(seen, one.drop_last()) == (seen, Seq::<FreshModel>::empty()));
    assert(one.last() == event);
}

/// What is delivered, and what is not: a parcel that another node published, or nobody that is named,
/// if the subscription wants every routing key or just that one. It is delivered whole, under the topic
/// of the subscription.
pub proof fn a_parcel_is_delivered_if_it_is_wanted(subscription: SubscriptionModel, parcel: ParcelModel)
    ensures
        subscription.delivery(None) is None,
        subscription.delivery(Some(parcel)) is Some <==> parcel.publisher != Some(subscription.node_id) && (
        subscription.routing_key is None || parcel.routing_key == subscription.routing_key),
        subscription.delivery(Some(parcel)) matches Some(message) ==> {
            &&& message.topic == subscription.topic
            &&& message.routing_key == parcel.routing_key
            &&& message.payload == parcel.payload
            &&& message.from_node == subscription.node_id
        },
{
}

/// Messages, parcels and fresh events in the model keep what they carry.
pub proof fn messages_keep_what_they_carry(
    message: PublishedMessage,
    parcel: Parcel,
    events: Seq<FreshEvent>,
    i: int,
)
    ensures
        message@.topic == message.topic@,
        message@.routing_key == text_of(message.routing_key),
        message@.payload == message.payload@,
        message@.from_node == message.from_node@,
        parcel@.publisher == text_of(parcel.publisher),
        parcel@.routing_key == text_of(parcel.routing_key),
        parcel@.payload == parcel.payload@,
        opened(None) is None,
        opened(Some(parcel)) == Some(parcel@),
        fresh_models(events).len() == events.len(),
        0 <= i < events.len() ==> fresh_models(events)[i].id == events[i].id@
            && fresh_models(events)[i].envelope == events[i].envelope@,
{
}

} // verus!
