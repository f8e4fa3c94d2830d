use vstd::prelude::*;

pub use crate::event::Event;
use crate::registry::{report_of, DeliveryFailure, PublishReport, Registry};
use crate::tokio_channel::{open_channel, try_send, ChannelReceiver, ChannelSender};

verus! {

/// The capacity of each subscriber's channel.
pub const CHANNEL_CAPACITY: usize = 1000;

/// A subscription holding a topic pattern and a bounded sender channel for events.
pub type Subscription<T> = crate::registry::Subscription<ChannelSender<Event<T>>>;

/// `after` is `before` with one more message, whose topic is `topic`.
pub open spec fn offered_once<T>(before: Seq<Event<T>>, after: Seq<Event<T>>, topic: Seq<char>) -> bool {
    &&& after.len() == before.len() + 1
    &&& after.drop_last() == before
    &&& after.last().topic@ == topic
}

/// The EventBus holds a registry of subscriptions and auto-generates subscriber IDs.
#[verifier::reject_recursive_types(T)]
pub struct EventBus<T> {
    subscriptions: Registry<ChannelSender<Event<T>>>,
}

impl<T> EventBus<T> {
    /// The pattern of each subscriber, by id.
    pub closed spec fn patterns(&self) -> Map<usize, Seq<char>> {
        self.subscriptions.patterns()
    }

    /// The channel each subscriber's events go into, by id.
    pub closed spec fn channels(&self) -> Map<usize, int> {
        Map::new(
            |id: usize| self.subscriptions.entries().contains_key(id),
            |id: usize| self.subscriptions.entries()[id].sender.channel(),
        )
    }

    /// The events offered so far to each subscriber's channel, by id.
    pub closed spec fn offers(&self) -> Map<usize, Seq<Event<T>>> {
        Map::new(
            |id: usize| self.subscriptions.entries().contains_key(id),
            |id: usize| self.subscriptions.entries()[id].sender.offered(),
        )
    }

    /// The id that the next subscriber gets.
    pub closed spec fn next_id(&self) -> usize {
        self.subscriptions.next_id()
    }

    /// Every subscriber id is at least 1 and below `next_id`.
    pub closed spec fn ids_below_next(&self) -> bool {
        self.subscriptions.ids_below_next()
    }

    /// Subscriber `id` is registered and its pattern selects `topic`.
    pub open spec fn selects(&self, id: usize, topic: Seq<char>) -> bool {
        &&& self.patterns().contains_key(id)
        &&& crate::event::pattern_matches(self.patterns()[id], topic)
    }

    /// Each subscriber has one channel and one record of offers.
    pub proof fn lemma_offers_follow_subscriptions(&self)
        ensures
            self.channels().dom() == self.patterns().dom(),
            self.offers().dom() == self.patterns().dom(),
    {
        assert(self.channels().dom() =~= self.patterns().dom());
        assert(self.offers().dom() =~= self.patterns().dom());
    }

    /// Creates a new EventBus with no subscribers; the first id is 1.
    pub fn new() -> (bus: Self)
        ensures
            bus.patterns() == Map::<usize, Seq<char>>::empty(),
            bus.channels() == Map::<usize, int>::empty(),
            bus.offers() == Map::<usize, Seq<Event<T>>>::empty(),
            bus.next_id() == 1,
            bus.ids_below_next(),
    {
        let bus = EventBus { subscriptions: Registry::new() };
        assert(bus.patterns() =~= Map::<usize, Seq<char>>::empty());
        assert(bus.channels() =~= Map::<usize, int>::empty());
        assert(bus.offers() =~= Map::<usize, Seq<Event<T>>>::empty());
        bus
    }

    /// The pattern subscriber `id` subscribed with.
    pub fn pattern(&self, id: usize) -> (p: Option<&str>)
        ensures
            match p {
                Some(p) => self.patterns().contains_key(id) && p@ == self.patterns()[id],
                None => !self.patterns().contains_key(id),
            },
    {
        match self.subscriptions.get(id) {
            Some(sub) => Some(sub.pattern.as_str()),
            None => None,
        }
    }

    /// Subscribe to events matching the given topic pattern.
    /// Returns the auto-generated subscriber id and the receiving half of a new
    /// channel whose sending half is registered under that id, with nothing
    /// offered to it yet.
    pub fn subscribe(&mut self, pattern: String) -> (r: (usize, ChannelReceiver<Event<T>>))
        ensures
            r.0 == old(self).next_id(),
            final(self).next_id() == Registry::<ChannelSender<Event<T>>>::successor(
                old(self).next_id(),
            ),
            final(self).patterns() == old(self).patterns().insert(r.0, pattern@),
            final(self).channels() == old(self).channels().insert(r.0, r.1.channel()),
            final(self).offers() == old(self).offers().insert(r.0, Seq::<Event<T>>::empty()),
            old(self).ids_below_next() && old(self).next_id() < usize::MAX ==> {
                &&& !old(self).patterns().contains_key(r.0)
                &&& final(self).ids_below_next()
            },
    {
        let (sender, receiver) = open_channel(CHANNEL_CAPACITY);
        let ghost p = pattern@;
        let ghost c = receiver.channel();
        let id = self.subscriptions.insert(pattern, sender);
        assert(self.patterns() =~= old(self).patterns().insert(id, p));
        assert(self.channels() =~= old(self).channels().insert(id, c));
        assert(self.offers() =~= old(self).offers().insert(id, Seq::<Event<T>>::empty()));
        (id, receiver)
    }

    /// Unsubscribe using the generated subscriber id.
    pub fn unsubscribe(&mut self, subscriber_id: usize)
        ensures
            final(self).next_id() == old(self).next_id(),
            final(self).patterns() == old(self).patterns().remove(subscriber_id),
            final(self).channels() == old(self).channels().remove(subscriber_id),
            final(self).offers() == old(self).offers().remove(subscriber_id),
            old(self).ids_below_next() ==> final(self).ids_below_next(),
    {
        self.subscriptions.remove(subscriber_id);
        assert(self.patterns() =~= old(self).patterns().remove(subscriber_id));
        assert(self.channels() =~= old(self).channels().remove(subscriber_id));
        assert(self.offers() =~= old(self).offers().remove(subscriber_id));
    }

    /// Publish an event to all matching subscriptions: an event with the same
    /// topic and a clone of the payload is offered, without waiting, to the
    /// channel of every subscriber whose pattern selects the topic, and to no
    /// other channel. The report lists, each once, the subscribers whose channel
    /// took the event and those whose channel refused it, with the reason.
    pub fn publish(&mut self, event: Event<T>) -> (report: PublishReport)
        where
            T: Clone,
        ensures
            published(*old(self), *final(self), event.topic@),
            report.covers_exactly(|id: usize| old(self).selects(id, event.topic@)),
            old(self).ids_below_next() ==> final(self).ids_below_next(),
    {
        let ghost old_entries = self.subscriptions.entries();
        let ids = self.subscriptions.matching(event.topic.as_str());
        let mut outcomes: Vec<Result<(), DeliveryFailure>> = Vec::new();
        let mut i: usize = 0;
        while i < ids.len()
            invariant
                i <= ids.len(),
                outcomes@.len() == i,
                ids@.no_duplicates(),
                forall|id: usize| #[trigger] ids@.contains(id) <==> old(self).selects(id, event.topic@),
                old_entries == old(self).subscriptions.entries(),
                self.subscriptions.next_id() == old(self).subscriptions.next_id(),
                self.subscriptions.entries().dom() == old_entries.dom(),
                forall|id: usize| #[trigger] old_entries.contains_key(id) ==> {
                    &&& self.subscriptions.entries()[id].pattern == old_entries[id].pattern
                    &&& self.subscriptions.entries()[id].sender.channel()
                        == old_entries[id].sender.channel()
                    &&& if ids@.take(i as int).contains(id) {
                        offered_once(
                            old_entries[id].sender.offered(),
                            self.subscriptions.entries()[id].sender.offered(),
                            event.topic@,
                        )
                    } else {
                        self.subscriptions.entries()[id].sender.offered()
                            == old_entries[id].sender.offered()
                    }
                },
            decreases ids.len() - i,
        {
            let id = ids[i];
            let ghost done = ids@.take(i as int);
            proof {
                assert(ids@.take(i + 1) =~= done.push(id));
                assert(ids@.contains(id)) by {
                    assert(ids@[i as int] == id);
                }
                assert(!done.contains(id)) by {
                    if done.contains(id) {
                        let j = choose|j: int| 0 <= j < done.len() && done[j] == id;
                        assert(ids@[j] == ids@[i as int]);
                    }
                }
            }
            let ghost before = self.subscriptions.entries();
            let mut sub = self.subscriptions.take(id).unwrap();
            let copy = Event { topic: event.topic.clone(), payload: event.payload.clone() };
            outcomes.push(try_send(&mut sub.sender, copy));
            self.subscriptions.put(id, sub);
            proof {
                let now = self.subscriptions.entries();
                assert(now.dom() =~= before.dom());
                assert forall|k: usize| #[trigger] old_entries.contains_key(k) implies {
                    &&& now[k].pattern == old_entries[k].pattern
                    &&& now[k].sender.channel() == old_entries[k].sender.channel()
                    &&& if ids@.take(i + 1).contains(k) {
                        offered_once(old_entries[k].sender.offered(), now[k].sender.offered(), event.topic@)
                    } else {
                        now[k].sender.offered() == old_entries[k].sender.offered()
                    }
                } by {
                    if k == id {
                        assert(ids@.take(i + 1)[i as int] == k);
                        assert(now[k].sender.offered().drop_last() =~= old_entries[k].sender.offered());
                    } else {
                        assert(now[k] == before[k]);
                        let upto = ids@.take(i + 1);
                        if upto.contains(k) {
                            let j = choose|j: int| 0 <= j < upto.len() && upto[j] == k;
                            assert(done[j] == k);
                        }
                        if done.contains(k) {
                            let j = choose|j: int| 0 <= j < done.len() && done[j] == k;
                            assert(upto[j] == k);
                        }
                    }
                }
            }
            i = i + 1;
        }
        let report = report_of(&ids, &outcomes);
        proof {
            assert(ids@.take(ids@.len() as int) =~= ids@);
            report.lemma_covers(ids@, |id: usize| old(self).selects(id, event.topic@));
            assert(self.patterns() =~= old(self).patterns());
            assert(self.channels() =~= old(self).channels());
            assert(self.offers().dom() =~= old(self).offers().dom());
        }
        report
    }
}

/// A call on a bus: `subscribe` with the pattern it was given and the id it
/// handed out, `unsubscribe` with the id it was given, or `publish` of an event
/// with the given topic.
pub enum BusCall {
    Subscribe { subscribed: usize, pattern: Seq<char> },
    Unsubscribe { unsubscribed: usize },
    Publish { topic: Seq<char> },
}

/// What `publish` of an event on `topic` makes of `before`: the subscriptions
/// stay, each selected subscriber's channel is offered one event on `topic`,
/// and no other channel is offered anything.
pub open spec fn published<T>(before: EventBus<T>, after: EventBus<T>, topic: Seq<char>) -> bool {
    &&& after.patterns() == before.patterns()
    &&& after.channels() == before.channels()
    &&& after.next_id() == before.next_id()
    &&& after.offers().dom() == before.offers().dom()
    &&& forall|id: usize| #[trigger] before.offers().contains_key(id) ==> if before.selects(id, topic) {
        offered_once(before.offers()[id], after.offers()[id], topic)
    } else {
        after.offers()[id] == before.offers()[id]
    }
}

/// `after` is what `call` made of `before`, as the contracts of `subscribe`,
/// `unsubscribe` and `publish` describe it.
pub open spec fn call_step<T>(before: EventBus<T>, after: EventBus<T>, call: BusCall) -> bool {
    match call {
        BusCall::Subscribe { subscribed: id, pattern } => {
            &&& id == before.next_id()
            &&& after.next_id() == Registry::<ChannelSender<Event<T>>>::successor(
                before.next_id(),
            )
            &&& after.patterns() == before.patterns().insert(id, pattern)
            &&& after.offers() == before.offers().insert(id, Seq::<Event<T>>::empty())
        },
        BusCall::Unsubscribe { unsubscribed: id } => {
            &&& after.next_id() == before.next_id()
            &&& after.patterns() == before.patterns().remove(id)
            &&& after.offers() == before.offers().remove(id)
        },
        BusCall::Publish { topic } => published(before, after, topic),
    }
}

/// `states` are a new bus and what `calls`, made one after another, made of it.
pub open spec fn is_history<T>(states: Seq<EventBus<T>>, calls: Seq<BusCall>) -> bool {
    &&& states.len() == calls.len() + 1
    &&& states[0].patterns() == Map::<usize, Seq<char>>::empty()
    &&& states[0].next_id() == 1
    &&& forall|k: int| 0 <= k < calls.len() ==> call_step(states[k], states[k + 1], #[trigger] calls[k])
}

/// No call after position `i` and before position `k` unsubscribes `id`.
pub open spec fn kept_between(calls: Seq<BusCall>, id: usize, i: int, k: int) -> bool {
    forall|m: int| i < m < k ==> #[trigger] calls[m] != (BusCall::Unsubscribe { unsubscribed: id })
}

proof fn lemma_history_prefix<T>(states: Seq<EventBus<T>>, calls: Seq<BusCall>, k: int)
    requires
        is_history(states, calls),
        calls.len() < usize::MAX,
        0 <= k <= calls.len(),
    ensures
        1 <= states[k].next_id() <= k + 1,
        states[k].ids_below_next(),
        forall|i: int| 0 <= i <= k ==> #[trigger] states[i].next_id() <= states[k].next_id(),
        forall|i: int|
            0 <= i < k && #[trigger] calls[i] is Subscribe && kept_between(
                calls,
                calls[i]->subscribed,
                i,
                k,
            ) ==> states[k].patterns().contains_key(calls[i]->subscribed)
                && states[k].patterns()[calls[i]->subscribed] == calls[i]->pattern,
    decreases k,
{
    if k == 0 {
        assert forall|id: usize| #[trigger] states[0].subscriptions.entries().contains_key(id) implies 1
            <= id < states[0].subscriptions.next_id() by {
            assert(states[0].patterns().contains_key(id));
        }
    } else {
        lemma_history_prefix(states, calls, k - 1);
        let before = states[k - 1];
        let after = states[k];
        assert(call_step(before, after, calls[k - 1]));
        assert(after.ids_below_next()) by {
            assert forall|id: usize| #[trigger] after.subscriptions.entries().contains_key(id) implies 1
                <= id < after.subscriptions.next_id() by {
                assert(after.patterns().contains_key(id));
                if before.patterns().contains_key(id) {
                    assert(before.subscriptions.entries().contains_key(id));
                }
            }
        }
        assert forall|i: int|
            0 <= i < k && #[trigger] calls[i] is Subscribe && kept_between(
                calls,
                calls[i]->subscribed,
                i,
                k,
            ) implies after.patterns().contains_key(calls[i]->subscribed)
                && after.patterns()[calls[i]->subscribed] == calls[i]->pattern by {
            if let BusCall::Subscribe { subscribed: id, pattern } = calls[i] {
                if i < k - 1 {
                    assert(kept_between(calls, id, i, k - 1));
                    lemma_history_prefix(states, calls, i + 1);
                    assert(call_step(states[i], states[i + 1], calls[i]));
                    assert(states[i + 1].next_id() <= before.next_id());
                    if let BusCall::Subscribe { subscribed: other, .. } = calls[k - 1] {
                        assert(other != id);
                    } else {
                        assert(calls[k - 1] != (BusCall::Unsubscribe { unsubscribed: id }));
                    }
                }
            }
        }
    }
}

/// Over any calls on a new bus, fewer than `usize::MAX`, the ids `subscribe`
/// hands out are at least 1 and pairwise distinct, none is registered when it
/// is handed out (so no subscription replaces another), and each id keeps the
/// pattern it was subscribed with until it is unsubscribed.
pub proof fn law_subscriber_ids_are_distinct<T>(states: Seq<EventBus<T>>, calls: Seq<BusCall>)
    requires
        is_history(states, calls),
        calls.len() < usize::MAX,
    ensures
        forall|i: int, j: int|
            0 <= i < j < calls.len() && #[trigger] calls[i] is Subscribe && #[trigger] calls[j] is Subscribe
                ==> calls[i]->subscribed != calls[j]->subscribed,
        forall|i: int|
            0 <= i < calls.len() && #[trigger] calls[i] is Subscribe ==> calls[i]->subscribed >= 1
                && !states[i].patterns().contains_key(calls[i]->subscribed),
        forall|i: int, k: int|
            0 <= i < k <= calls.len() && #[trigger] calls[i] is Subscribe && kept_between(
                calls,
                calls[i]->subscribed,
                i,
                k,
            ) ==> #[trigger] states[k].patterns().contains_key(calls[i]->subscribed)
                && states[k].patterns()[calls[i]->subscribed] == calls[i]->pattern,
        forall|k: int| 0 <= k < states.len() ==> #[trigger] states[k].ids_below_next(),
{
    assert forall|k: int| 0 <= k < states.len() implies #[trigger] states[k].ids_below_next() by {
        lemma_history_prefix(states, calls, k);
    }
    assert forall|i: int|
        0 <= i < calls.len() && #[trigger] calls[i] is Subscribe implies calls[i]->subscribed >= 1
            && !states[i].patterns().contains_key(calls[i]->subscribed) by {
        lemma_history_prefix(states, calls, i);
        assert(call_step(states[i], states[i + 1], calls[i]));
        let id = calls[i]->subscribed;
        if states[i].patterns().contains_key(id) {
            assert(states[i].subscriptions.entries().contains_key(id));
        }
    }
    assert forall|i: int, j: int|
        0 <= i < j < calls.len() && #[trigger] calls[i] is Subscribe && #[trigger] calls[j] is Subscribe
            implies calls[i]->subscribed != calls[j]->subscribed by {
        lemma_history_prefix(states, calls, j);
        lemma_history_prefix(states, calls, i);
        assert(call_step(states[i], states[i + 1], calls[i]));
        assert(call_step(states[j], states[j + 1], calls[j]));
        assert(states[i + 1].next_id() <= states[j].next_id());
    }
    assert forall|i: int, k: int|
        0 <= i < k <= calls.len() && #[trigger] calls[i] is Subscribe && kept_between(
            calls,
            calls[i]->subscribed,
            i,
            k,
        ) implies #[trigger] states[k].patterns().contains_key(calls[i]->subscribed)
            && states[k].patterns()[calls[i]->subscribed] == calls[i]->pattern by {
        lemma_history_prefix(states, calls, k);
    }
}

/// An id that `subscribe` handed out and that was later unsubscribed is never
/// registered again: no later call gives it a pattern, and no later publish
/// offers it anything.
pub proof fn law_unsubscribed_ids_stay_out<T>(states: Seq<EventBus<T>>, calls: Seq<BusCall>)
    requires
        is_history(states, calls),
        calls.len() < usize::MAX,
    ensures
        forall|j: int, i: int, k: int|
            #![trigger calls[j], calls[i], states[k]]
            0 <= j < i < k <= calls.len() && calls[j] is Subscribe && calls[i]
                == (BusCall::Unsubscribe { unsubscribed: calls[j]->subscribed }) ==> {
                &&& !states[k].patterns().contains_key(calls[j]->subscribed)
                &&& !states[k].offers().contains_key(calls[j]->subscribed)
            },
{
    assert forall|j: int, i: int, k: int|
        #![trigger calls[j], calls[i], states[k]]
        0 <= j < i < k <= calls.len() && calls[j] is Subscribe && calls[i]
            == (BusCall::Unsubscribe { unsubscribed: calls[j]->subscribed }) implies {
            &&& !states[k].patterns().contains_key(calls[j]->subscribed)
            &&& !states[k].offers().contains_key(calls[j]->subscribed)
        } by {
        lemma_stays_out(states, calls, j, i, k);
        states[k].lemma_offers_follow_subscriptions();
    }
}

proof fn lemma_stays_out<T>(states: Seq<EventBus<T>>, calls: Seq<BusCall>, j: int, i: int, k: int)
    requires
        is_history(states, calls),
        calls.len() < usize::MAX,
        0 <= j < i < k <= calls.len(),
        calls[j] is Subscribe,
        calls[i] == (BusCall::Unsubscribe { unsubscribed: calls[j]->subscribed }),
    ensures
        !states[k].patterns().contains_key(calls[j]->subscribed),
    decreases k,
{
    let id = calls[j]->subscribed;
    assert(call_step(states[k - 1], states[k], calls[k - 1]));
    if k - 1 > i {
        lemma_stays_out(states, calls, j, i, k - 1);
        if let BusCall::Subscribe { subscribed: other, .. } = calls[k - 1] {
            lemma_history_prefix(states, calls, k - 1);
            lemma_history_prefix(states, calls, j + 1);
            assert(call_step(states[j], states[j + 1], calls[j]));
            assert(states[j + 1].next_id() <= states[k - 1].next_id());
            assert(other != id);
        }
    }
}

/// The topics of a sequence of events, in order.
pub open spec fn topics<T>(events: Seq<Event<T>>) -> Seq<Seq<char>> {
    events.map_values(|e: Event<T>| e.topic@)
}

proof fn lemma_topics_push<T>(before: Seq<Event<T>>, after: Seq<Event<T>>, topic: Seq<char>)
    requires
        offered_once(before, after, topic),
    ensures
        topics(after) == topics(before).push(topic),
{
    assert(after =~= before.push(after.last()));
    assert(topics(after) =~= topics(before).push(topic));
}

/// Two subscribers with the same pattern, both still subscribed, are offered
/// the same events from the later subscription on, in the same order: the
/// topics offered to the earlier one are those it had before the later one
/// subscribed, followed by the topics offered to the later one.
pub proof fn law_same_pattern_same_offers<T>(
    states: Seq<EventBus<T>>,
    calls: Seq<BusCall>,
    ia: int,
    ib: int,
    k: int,
)
    requires
        is_history(states, calls),
        calls.len() < usize::MAX,
        0 <= ia < ib < k <= calls.len(),
        calls[ia] is Subscribe,
        calls[ib] is Subscribe,
        calls[ia]->pattern == calls[ib]->pattern,
        kept_between(calls, calls[ia]->subscribed, ia, k),
        kept_between(calls, calls[ib]->subscribed, ib, k),
    ensures
        topics(states[k].offers()[calls[ia]->subscribed]) == topics(
            states[ib].offers()[calls[ia]->subscribed],
        ) + topics(states[k].offers()[calls[ib]->subscribed]),
    decreases k,
{
    let a = calls[ia]->subscribed;
    let b = calls[ib]->subscribed;
    law_subscriber_ids_are_distinct(states, calls);
    assert(a != b);
    lemma_history_prefix(states, calls, k);
    lemma_history_prefix(states, calls, k - 1);
    states[k].lemma_offers_follow_subscriptions();
    states[k - 1].lemma_offers_follow_subscriptions();
    let before = states[k - 1];
    let after = states[k];
    assert(call_step(before, after, calls[k - 1]));
    if k == ib + 1 {
        lemma_history_prefix(states, calls, ib);
        states[ib].lemma_offers_follow_subscriptions();
        assert(kept_between(calls, a, ia, ib));
        assert(topics(after.offers()[b]) =~= Seq::<Seq<char>>::empty());
        assert(topics(after.offers()[a]) + topics(after.offers()[b]) =~= topics(after.offers()[a]));
    } else {
        assert(kept_between(calls, a, ia, k - 1));
        assert(kept_between(calls, b, ib, k - 1));
        law_same_pattern_same_offers(states, calls, ia, ib, k - 1);
        let start = topics(states[ib].offers()[a]);
        match calls[k - 1] {
            BusCall::Subscribe { subscribed: c, .. } => {
                lemma_history_prefix(states, calls, ib + 1);
                assert(call_step(states[ib], states[ib + 1], calls[ib]));
                assert(states[ib + 1].next_id() <= before.next_id());
                assert(c != a && c != b);
            },
            BusCall::Unsubscribe { unsubscribed: c } => {
                assert(calls[k - 1] != (BusCall::Unsubscribe { unsubscribed: a }));
                assert(calls[k - 1] != (BusCall::Unsubscribe { unsubscribed: b }));
            },
            BusCall::Publish { topic } => {
                assert(before.patterns()[a] == before.patterns()[b]);
                if before.selects(a, topic) {
                    lemma_topics_push(before.offers()[a], after.offers()[a], topic);
                    lemma_topics_push(before.offers()[b], after.offers()[b], topic);
                    assert(topics(after.offers()[a]) =~= start + topics(after.offers()[b]));
                }
            },
        }
    }
}

/// Unsubscribing the id that `subscribe` handed out leaves the bus's
/// subscriptions as they were before the subscription.
pub proof fn law_unsubscribe_undoes_subscribe<T>(
    before: &EventBus<T>,
    subscribed: &EventBus<T>,
    after: &EventBus<T>,
    id: usize,
    pattern: Seq<char>,
)
    requires
        before.ids_below_next(),
        before.next_id() < usize::MAX,
        id == before.next_id(),
        subscribed.patterns() == before.patterns().insert(id, pattern),
        after.patterns() == subscribed.patterns().remove(id),
    ensures
        after.patterns() == before.patterns(),
{
    assert(!before.patterns().contains_key(id));
    assert(after.patterns() =~= before.patterns());
}

} // verus!
