use std::collections::HashMap;
use vstd::prelude::*;
use vstd::std_specs::iter::IteratorSpec;

use crate::event::{pattern_matches, topic_matches};

verus! {

broadcast use vstd::std_specs::hash::group_hash_axioms;

/// A subscription: a topic pattern (such as `booking:*`) and the sending half
/// of the channel that receives the events it selects.
pub struct Subscription<S> {
    pub pattern: String,
    pub sender: S,
}

/// Why an event could not be handed to a subscriber's channel.
#[derive(Debug, Clone, Copy, PartialEq, Eq, Structural)]
pub enum DeliveryFailure {
    /// The channel's buffer was full.
    Full,
    /// The receiving half of the channel is gone.
    Closed,
}

/// The outcome of one publication: the subscribers whose channel took the
/// event, and those whose channel refused it, with the reason.
#[derive(Debug)]
pub struct PublishReport {
    pub delivered: Vec<usize>,
    pub dropped: Vec<(usize, DeliveryFailure)>,
}

/// The subscriber ids of a list of refusals.
pub open spec fn refused_ids(dropped: Seq<(usize, DeliveryFailure)>) -> Seq<usize> {
    dropped.map_values(|d: (usize, DeliveryFailure)| d.0)
}

impl PublishReport {
    pub open spec fn dropped_ids(&self) -> Seq<usize> {
        refused_ids(self.dropped@)
    }

    /// Subscriber `id`'s channel was offered the event.
    pub open spec fn attempted(&self, id: usize) -> bool {
        self.delivered@.contains(id) || self.dropped_ids().contains(id)
    }

    /// Every subscriber was offered the event at most once, with one outcome,
    /// and those offered it are exactly the `wanted` ones.
    pub open spec fn covers_exactly(&self, wanted: spec_fn(usize) -> bool) -> bool {
        &&& self.delivered@.no_duplicates()
        &&& self.dropped_ids().no_duplicates()
        &&& forall|id: usize|
            !(#[trigger] self.delivered@.contains(id) && self.dropped_ids().contains(id))
        &&& forall|id: usize| #[trigger] self.attempted(id) <==> wanted(id)
    }

    /// A report whose lists split `tried` exactly covers whatever `tried` enumerates.
    pub proof fn lemma_covers(&self, tried: Seq<usize>, wanted: spec_fn(usize) -> bool)
        requires
            accounts_for(self.delivered@, self.dropped_ids(), tried),
            forall|id: usize| #[trigger] tried.contains(id) <==> wanted(id),
        ensures
            self.covers_exactly(wanted),
    {
        assert forall|id: usize| #[trigger] self.attempted(id) <==> wanted(id) by {
            assert(tried.contains(id) <==> wanted(id));
            if self.delivered@.contains(id) || self.dropped_ids().contains(id) {
                assert(tried.contains(id));
            }
        }
    }
}

/// Appending an element that a duplicate-free sequence lacks keeps it duplicate-free.
pub proof fn lemma_push_fresh<A>(s: Seq<A>, x: A)
    requires
        s.no_duplicates(),
        !s.contains(x),
    ensures
        s.push(x).no_duplicates(),
{
    assert forall|a: int, b: int| 0 <= a < b < s.push(x).len() implies s.push(x)[a] != s.push(
        x,
    )[b] by {
        if b == s.len() {
            assert(s.contains(s[a]));
        }
    }
}

/// `delivered` and `refused` split the ids in `tried` between them, each id once.
pub open spec fn accounts_for(delivered: Seq<usize>, refused: Seq<usize>, tried: Seq<usize>) -> bool {
    &&& delivered.no_duplicates()
    &&& refused.no_duplicates()
    &&& forall|k: usize| !(#[trigger] delivered.contains(k) && refused.contains(k))
    &&& forall|k: usize| #[trigger] delivered.contains(k) ==> tried.contains(k)
    &&& forall|k: usize| #[trigger] refused.contains(k) ==> tried.contains(k)
    &&& forall|k: usize| #[trigger] tried.contains(k) ==> delivered.contains(k) || refused.contains(k)
}

/// Recording one more attempt, for an id not tried before, on either side keeps
/// the split exact.
pub proof fn lemma_account_one_more(
    delivered: Seq<usize>,
    refused: Seq<usize>,
    tried: Seq<usize>,
    id: usize,
    delivered2: Seq<usize>,
    refused2: Seq<usize>,
)
    requires
        accounts_for(delivered, refused, tried),
        !tried.contains(id),
        (delivered2 == delivered.push(id) && refused2 == refused) || (delivered2 == delivered
            && refused2 == refused.push(id)),
    ensures
        accounts_for(delivered2, refused2, tried.push(id)),
{
    assert(!delivered.contains(id) && !refused.contains(id)) by {
        if delivered.contains(id) || refused.contains(id) {
            assert(tried.contains(id));
        }
    }
    if delivered2 == delivered.push(id) {
        lemma_push_fresh(delivered, id);
    } else {
        lemma_push_fresh(refused, id);
    }
    assert forall|k: usize| !(#[trigger] delivered2.contains(k) && refused2.contains(k)) by {
        if delivered2.contains(k) && refused2.contains(k) {
            if k != id {
                assert(delivered.contains(k)) by {
                    let j = choose|j: int| 0 <= j < delivered2.len() && delivered2[j] == k;
                    assert(j < delivered.len());
                    assert(delivered[j] == k);
                }
                assert(refused.contains(k)) by {
                    let j = choose|j: int| 0 <= j < refused2.len() && refused2[j] == k;
                    assert(j < refused.len());
                    assert(refused[j] == k);
                }
            }
        }
    }
    assert forall|k: usize|
        (delivered2.contains(k) || refused2.contains(k)) <==> #[trigger] tried.push(id).contains(k) by {
        let t2 = tried.push(id);
        if k == id {
            assert(t2[tried.len() as int] == k);
            if delivered2 == delivered.push(id) {
                assert(delivered2[delivered.len() as int] == k);
            } else {
                assert(refused2[refused.len() as int] == k);
            }
        } else {
            if delivered2.contains(k) {
                let j = choose|j: int| 0 <= j < delivered2.len() && delivered2[j] == k;
                assert(delivered[j] == k);
            }
            if refused2.contains(k) {
                let j = choose|j: int| 0 <= j < refused2.len() && refused2[j] == k;
                assert(refused[j] == k);
            }
            if delivered.contains(k) {
                let j = choose|j: int| 0 <= j < delivered.len() && delivered[j] == k;
                assert(delivered2[j] == k);
            }
            if refused.contains(k) {
                let j = choose|j: int| 0 <= j < refused.len() && refused[j] == k;
                assert(refused2[j] == k);
            }
            if t2.contains(k) {
                let j = choose|j: int| 0 <= j < t2.len() && t2[j] == k;
                assert(tried[j] == k);
            }
            if tried.contains(k) {
                let j = choose|j: int| 0 <= j < tried.len() && tried[j] == k;
                assert(t2[j] == k);
            }
        }
    }
}

/// The ids among `ids` whose channel took the event (`outcomes[k]` answers for
/// `ids[k]`), in order.
pub open spec fn delivered_ids(
    ids: Seq<usize>,
    outcomes: Seq<Result<(), DeliveryFailure>>,
) -> Seq<usize>
    decreases ids.len(),
{
    if ids.len() == 0 || outcomes.len() == 0 {
        Seq::empty()
    } else {
        let rest = delivered_ids(ids.drop_last(), outcomes.drop_last());
        if outcomes.last() is Ok {
            rest.push(ids.last())
        } else {
            rest
        }
    }
}

/// The ids among `ids` whose channel refused the event, each with its reason,
/// in order.
pub open spec fn refusals(
    ids: Seq<usize>,
    outcomes: Seq<Result<(), DeliveryFailure>>,
) -> Seq<(usize, DeliveryFailure)>
    decreases ids.len(),
{
    if ids.len() == 0 || outcomes.len() == 0 {
        Seq::empty()
    } else {
        let rest = refusals(ids.drop_last(), outcomes.drop_last());
        match outcomes.last() {
            Ok(()) => rest,
            Err(reason) => rest.push((ids.last(), reason)),
        }
    }
}

/// Each id's channel answer decides on which side of the report it lands, and
/// distinct ids split exactly between the two sides.
proof fn lemma_report_sides(ids: Seq<usize>, outcomes: Seq<Result<(), DeliveryFailure>>)
    requires
        ids.len() == outcomes.len(),
        ids.no_duplicates(),
    ensures
        accounts_for(delivered_ids(ids, outcomes), refused_ids(refusals(ids, outcomes)), ids),
        forall|k: int|
            0 <= k < ids.len() ==> (#[trigger] outcomes[k] is Ok <==> delivered_ids(
                ids,
                outcomes,
            ).contains(ids[k])),
        forall|k: int|
            0 <= k < ids.len() ==> (#[trigger] outcomes[k] matches Err(e) ==> refusals(
                ids,
                outcomes,
            ).contains((ids[k], e))),
    decreases ids.len(),
{
    let d = delivered_ids(ids, outcomes);
    let r = refusals(ids, outcomes);
    if ids.len() == 0 {
        assert(d =~= Seq::<usize>::empty());
        assert(refused_ids(r) =~= Seq::<usize>::empty());
    } else {
        let n = ids.len() - 1;
        let ids0 = ids.drop_last();
        let out0 = outcomes.drop_last();
        assert(ids0.no_duplicates());
        lemma_report_sides(ids0, out0);
        let d0 = delivered_ids(ids0, out0);
        let r0 = refusals(ids0, out0);
        let last = ids.last();
        assert(!ids0.contains(last)) by {
            if ids0.contains(last) {
                let j = choose|j: int| 0 <= j < ids0.len() && ids0[j] == last;
                assert(ids[j] == ids[n]);
            }
        }
        assert(ids =~= ids0.push(last));
        match outcomes.last() {
            Ok(()) => {
                assert(refused_ids(r) =~= refused_ids(r0));
                lemma_account_one_more(d0, refused_ids(r0), ids0, last, d, refused_ids(r));
            },
            Err(reason) => {
                assert(refused_ids(r) =~= refused_ids(r0).push(last));
                lemma_account_one_more(d0, refused_ids(r0), ids0, last, d, refused_ids(r));
            },
        }
        assert forall|k: int| 0 <= k < ids.len() implies (#[trigger] outcomes[k] is Ok <==> d.contains(ids[k])) by {
            if k == n {
                if outcomes[k] is Ok {
                    assert(d[d.len() - 1] == ids[k]);
                } else {
                    assert(d == d0);
                }
            } else {
                assert(ids0[k] == ids[k] && out0[k] == outcomes[k]);
                if d0.contains(ids[k]) {
                    let j = choose|j: int| 0 <= j < d0.len() && d0[j] == ids[k];
                    assert(d[j] == ids[k]);
                }
                if d.contains(ids[k]) {
                    let j = choose|j: int| 0 <= j < d.len() && d[j] == ids[k];
                    if j == d0.len() {
                        assert(ids[k] == last);
                        assert(ids0.contains(last));
                    } else {
                        assert(d0[j] == ids[k]);
                    }
                }
            }
        }
        assert forall|k: int| 0 <= k < ids.len() implies (#[trigger] outcomes[k] matches Err(e) ==> r.contains((ids[k], e))) by {
            if let Err(e) = outcomes[k] {
                if k == n {
                    assert(r[r.len() - 1] == (ids[k], e));
                } else {
                    assert(ids0[k] == ids[k] && out0[k] == outcomes[k]);
                    let j = choose|j: int| 0 <= j < r0.len() && r0[j] == (ids[k], e);
                    assert(r[j] == (ids[k], e));
                }
            }
        }
    }
}

/// The report of offering an event to the subscribers `ids`, where
/// `outcomes[k]` is what the channel of `ids[k]` answered: the subscribers
/// whose channel took it are `delivered` and those whose channel refused it are
/// `dropped`, with the reason, both in the order of `ids`.
pub fn report_of(ids: &Vec<usize>, outcomes: &Vec<Result<(), DeliveryFailure>>) -> (r: PublishReport)
    requires
        ids@.len() == outcomes@.len(),
        ids@.no_duplicates(),
    ensures
        r.delivered@ == delivered_ids(ids@, outcomes@),
        r.dropped@ == refusals(ids@, outcomes@),
        accounts_for(r.delivered@, r.dropped_ids(), ids@),
        forall|k: int|
            0 <= k < ids@.len() ==> (#[trigger] outcomes@[k] is Ok <==> r.delivered@.contains(ids@[k])),
        forall|k: int|
            0 <= k < ids@.len() ==> (#[trigger] outcomes@[k] matches Err(e) ==> r.dropped@.contains(
                (ids@[k], e),
            )),
{
    let mut delivered: Vec<usize> = Vec::new();
    let mut dropped: Vec<(usize, DeliveryFailure)> = Vec::new();
    let mut i: usize = 0;
    proof {
        assert(ids@.take(0) =~= Seq::<usize>::empty());
    }
    while i < ids.len()
        invariant
            i <= ids@.len(),
            ids@.len() == outcomes@.len(),
            delivered@ == delivered_ids(ids@.take(i as int), outcomes@.take(i as int)),
            dropped@ == refusals(ids@.take(i as int), outcomes@.take(i as int)),
        decreases ids.len() - i,
    {
        proof {
            assert(ids@.take(i + 1).drop_last() =~= ids@.take(i as int));
            assert(outcomes@.take(i + 1).drop_last() =~= outcomes@.take(i as int));
        }
        match &outcomes[i] {
            Ok(()) => delivered.push(ids[i]),
            Err(reason) => dropped.push((ids[i], *reason)),
        }
        i = i + 1;
    }
    proof {
        assert(ids@.take(ids@.len() as int) =~= ids@);
        assert(outcomes@.take(outcomes@.len() as int) =~= outcomes@);
        lemma_report_sides(ids@, outcomes@);
    }
    PublishReport { delivered, dropped }
}

/// The table of subscriptions of an event bus, keyed by subscriber id, and the
/// id that the next subscription gets.
pub struct Registry<S> {
    subscriptions: HashMap<usize, Subscription<S>>,
    next_id: usize,
}

impl<S> Registry<S> {
    pub closed spec fn entries(&self) -> Map<usize, Subscription<S>> {
        self.subscriptions@
    }

    pub closed spec fn next_id(&self) -> usize {
        self.next_id
    }

    /// The pattern of each registered subscriber.
    pub open spec fn patterns(&self) -> Map<usize, Seq<char>> {
        Map::new(
            |id: usize| self.entries().contains_key(id),
            |id: usize| self.entries()[id].pattern@,
        )
    }

    /// Subscriber `id` is registered and its pattern selects `topic`.
    pub open spec fn selects(&self, id: usize, topic: Seq<char>) -> bool {
        &&& self.entries().contains_key(id)
        &&& pattern_matches(self.entries()[id].pattern@, topic)
    }

    /// Every registered id was handed out before `next_id`: ids start at 1.
    pub open spec fn ids_below_next(&self) -> bool {
        &&& 1 <= self.next_id()
        &&& forall|id: usize| #[trigger] self.entries().contains_key(id) ==> 1 <= id < self.next_id()
    }

    /// The id after `id`, wrapping around as an atomic counter does.
    pub open spec fn successor(id: usize) -> usize {
        if id == usize::MAX {
            0
        } else {
            (id + 1) as usize
        }
    }

    /// An empty table whose first subscriber gets id 1.
    pub fn new() -> (r: Self)
        ensures
            r.entries() == Map::<usize, Subscription<S>>::empty(),
            r.next_id() == 1,
            r.ids_below_next(),
    {
        Registry { subscriptions: HashMap::new(), next_id: 1 }
    }

    /// Registers a subscription under the next id and returns that id.
    pub fn insert(&mut self, pattern: String, sender: S) -> (id: usize)
        ensures
            id == old(self).next_id(),
            final(self).next_id() == Self::successor(old(self).next_id()),
            final(self).entries() == old(self).entries().insert(
                id,
                Subscription { pattern, sender },
            ),
            old(self).ids_below_next() && old(self).next_id() < usize::MAX ==> {
                &&& !old(self).entries().contains_key(id)
                &&& final(self).ids_below_next()
            },
    {
        let id = self.next_id;
        self.next_id = self.next_id.wrapping_add(1);
        self.subscriptions.insert(id, Subscription { pattern, sender });
        id
    }

    /// Drops the subscription registered under `id`, if any.
    pub fn remove(&mut self, id: usize)
        ensures
            final(self).next_id() == old(self).next_id(),
            final(self).entries() == old(self).entries().remove(id),
            old(self).ids_below_next() ==> final(self).ids_below_next(),
    {
        self.subscriptions.remove(&id);
    }

    /// Takes the subscription registered under `id` out of the table, if any.
    pub(crate) fn take(&mut self, id: usize) -> (s: Option<Subscription<S>>)
        ensures
            final(self).next_id() == old(self).next_id(),
            final(self).entries() == old(self).entries().remove(id),
            match s {
                Some(sub) => old(self).entries().contains_key(id) && sub == old(self).entries()[id],
                None => !old(self).entries().contains_key(id),
            },
    {
        self.subscriptions.remove(&id)
    }

    /// Registers `sub` under `id`, replacing what is there.
    pub(crate) fn put(&mut self, id: usize, sub: Subscription<S>)
        ensures
            final(self).next_id() == old(self).next_id(),
            final(self).entries() == old(self).entries().insert(id, sub),
    {
        self.subscriptions.insert(id, sub);
    }

    /// The subscription registered under `id`.
    pub fn get(&self, id: usize) -> (s: Option<&Subscription<S>>)
        ensures
            match s {
                Some(sub) => self.entries().contains_key(id) && *sub == self.entries()[id],
                None => !self.entries().contains_key(id),
            },
    {
        self.subscriptions.get(&id)
    }

    /// The ids of the subscribers whose pattern selects `topic`, each once.
    pub fn matching(&self, topic: &str) -> (ids: Vec<usize>)
        ensures
            ids@.no_duplicates(),
            forall|id: usize| #[trigger] ids@.contains(id) <==> self.selects(id, topic@),
    {
        let mut ids: Vec<usize> = Vec::new();
        let ghost keys = vstd::std_specs::hash::spec_keys_iter(&self.subscriptions).remaining();
        for id in it: self.subscriptions.keys()
            invariant
                it.seq() == keys,
                keys.unref().to_set() == self.entries().dom(),
                keys.no_duplicates(),
                ids@.no_duplicates(),
                forall|k: usize| #[trigger]
                    ids@.contains(k) <==> (keys.take(it.index()).unref().contains(k)
                        && self.selects(k, topic@)),
        {
            let ghost before = keys.take(it.index()).unref();
            proof {
                assert(keys.take(it.index() + 1).unref() =~= before.push(*id));
                assert(keys.unref().to_set().contains(*id)) by {
                    assert(keys.unref()[it.index()] == *id);
                }
                assert(!before.contains(*id)) by {
                    if before.contains(*id) {
                        let j = choose|j: int| 0 <= j < before.len() && before[j] == *id;
                        assert(keys[j] == keys[it.index()]);
                    }
                }
            }
            let ghost old_ids = ids@;
            let sub = self.subscriptions.get(id).unwrap();
            assert(*sub == self.entries()[*id]);
            let selected = topic_matches(sub.pattern.as_str(), topic);
            if selected {
                ids.push(*id);
                proof {
                    assert(!old_ids.contains(*id));
                    assert(ids@ =~= old_ids.push(*id));
                    assert forall|a: int, b: int| 0 <= a < b < ids@.len() implies ids@[a] != ids@[b] by {
                        if b == ids@.len() - 1 {
                            assert(old_ids.contains(ids@[a]));
                        }
                    }
                }
            }
            proof {
                assert forall|k: usize| #[trigger] ids@.contains(k) <==> (
                    keys.take(it.index() + 1).unref().contains(k) && self.selects(k, topic@)) by {
                    let now = keys.take(it.index() + 1).unref();
                    if k == *id {
                        assert(now[before.len() as int] == k);
                        if selected {
                            assert(ids@[ids@.len() - 1] == k);
                        }
                    } else {
                        if ids@.contains(k) {
                            let j = choose|j: int| 0 <= j < ids@.len() && ids@[j] == k;
                            assert(old_ids[j] == k);
                        }
                        if old_ids.contains(k) {
                            let j = choose|j: int| 0 <= j < old_ids.len() && old_ids[j] == k;
                            assert(ids@[j] == k);
                        }
                        if now.contains(k) {
                            let j = choose|j: int| 0 <= j < now.len() && now[j] == k;
                            assert(before[j] == k);
                        }
                        if before.contains(k) {
                            let j = choose|j: int| 0 <= j < before.len() && before[j] == k;
                            assert(now[j] == k);
                        }
                    }
                }
            }
        }
        proof {
            assert(keys.take(keys.len() as int) =~= keys);
            assert forall|k: usize| #[trigger] ids@.contains(k) <==> self.selects(k, topic@) by {
                if self.selects(k, topic@) {
                    assert(keys.unref().to_set().contains(k));
                }
            }
        }
        ids
    }
}

} // verus!
