//! The subscriber set of a broadcast channel.
//!
//! A channel is created once its listening socket is bound. From then on the
//! accept loop adds subscribers, a publish writes the same bytes to every
//! subscriber and drops those whose write failed, and teardown stops the
//! channel. Subscribers are known by the handle that the embedding program
//! gives each accepted connection; no two open connections share a handle.

use crate::error::IpcError;
use vstd::prelude::*;

verus! {

/// A publish as the contracts see it.
pub struct DeliveryState {
    /// What goes on the wire: the payload, serialized and framed once for
    /// all targets.
    pub bytes: Seq<u8>,
    /// Every subscriber of the channel when the publish began.
    pub targets: Seq<u64>,
    /// For the targets written to so far, in order, whether the write
    /// went through.
    pub outcomes: Seq<bool>,
}

impl DeliveryState {
    /// The writes that the publish asks for: one per target, in order, each
    /// of all the bytes.
    pub open spec fn writes(self) -> Seq<(u64, Seq<u8>)> {
        Seq::new(self.targets.len(), |i: int| (self.targets[i], self.bytes))
    }
}

/// The targets marked for removal: those whose write, among the first
/// `outcomes.len()`, did not go through.
pub open spec fn marked(targets: Seq<u64>, outcomes: Seq<bool>) -> Seq<u64>
    decreases outcomes.len(),
{
    if outcomes.len() == 0 {
        Seq::empty()
    } else {
        let earlier = marked(targets, outcomes.drop_last());
        if outcomes.last() || outcomes.len() > targets.len() {
            earlier
        } else {
            earlier.push(targets[outcomes.len() - 1])
        }
    }
}

/// How many of `outcomes` are failures.
pub open spec fn failures(outcomes: Seq<bool>) -> nat
    decreases outcomes.len(),
{
    if outcomes.len() == 0 {
        0
    } else if outcomes.last() {
        failures(outcomes.drop_last())
    } else {
        failures(outcomes.drop_last()) + 1
    }
}

/// One publish: the bytes to write, in full, to each target in turn, and
/// what came of the writes so far.
///
/// The caller asks for the next target, writes the bytes to it and records
/// whether the write went through, until no target is left. A failed write
/// marks its target and the publish goes on with the next.
pub struct Delivery {
    bytes: Vec<u8>,
    targets: Vec<u64>,
    outcomes: Vec<bool>,
}

impl View for Delivery {
    type V = DeliveryState;

    closed spec fn view(&self) -> DeliveryState {
        DeliveryState { bytes: self.bytes@, targets: self.targets@, outcomes: self.outcomes@ }
    }
}

impl Delivery {
    /// A publish of `bytes` to `targets`, before its first write.
    pub fn new(bytes: Vec<u8>, targets: Vec<u64>) -> (delivery: Delivery)
        ensures
            delivery@ == (DeliveryState {
                bytes: bytes@,
                targets: targets@,
                outcomes: Seq::empty(),
            }),
    {
        Delivery { bytes, targets, outcomes: Vec::new() }
    }

    /// The bytes to write to each target.
    pub fn bytes(&self) -> (bytes: &Vec<u8>)
        ensures
            bytes@ == self@.bytes,
    {
        &self.bytes
    }

    /// All targets of the publish, in the order in which they are written.
    pub fn targets(&self) -> (targets: &Vec<u64>)
        ensures
            targets@ == self@.targets,
    {
        &self.targets
    }

    /// The target to write to next, or `None` once every target has its
    /// outcome.
    pub fn next_target(&self) -> (next: Option<u64>)
        ensures
            next == if self@.outcomes.len() < self@.targets.len() {
                Some(self@.targets[self@.outcomes.len() as int])
            } else {
                None
            },
    {
        if self.outcomes.len() < self.targets.len() {
            Some(self.targets[self.outcomes.len()])
        } else {
            None
        }
    }

    /// Records whether the write to the next target went through, and moves
    /// on to the target after it. With no target left nothing is recorded.
    pub fn record(&mut self, written: bool)
        ensures
            final(self)@ == (DeliveryState {
                outcomes: if old(self)@.outcomes.len() < old(self)@.targets.len() {
                    old(self)@.outcomes.push(written)
                } else {
                    old(self)@.outcomes
                },
                ..old(self)@
            }),
    {
        if self.outcomes.len() < self.targets.len() {
            self.outcomes.push(written);
        }
    }

    /// The targets whose write failed, in the order of the writes.
    pub fn failed(&self) -> (failed: Vec<u64>)
        ensures
            failed@ == marked(self@.targets, self@.outcomes),
    {
        let mut failed: Vec<u64> = Vec::new();
        let mut i: usize = 0;
        while i < self.outcomes.len()
            invariant
                i <= self.outcomes.len(),
                failed@ == marked(self.targets@, self.outcomes@.take(i as int)),
            decreases self.outcomes.len() - i,
        {
            proof {
                let seen = self.outcomes@.take(i + 1);
                assert(seen.drop_last() =~= self.outcomes@.take(i as int));
                assert(seen.last() == self.outcomes@[i as int]);
            }
            if !self.outcomes[i] && i < self.targets.len() {
                failed.push(self.targets[i]);
            }
            i += 1;
        }
        proof {
            assert(self.outcomes@.take(i as int) =~= self.outcomes@);
        }
        failed
    }
}

/// The subscribers that stay after the writes to `failed` went wrong.
pub open spec fn survivors(subscribers: Seq<u64>, failed: Seq<u64>) -> Seq<u64> {
    subscribers.filter(|id: u64| !failed.contains(id))
}

/// The subscribers whose write went wrong.
pub open spec fn casualties(subscribers: Seq<u64>, failed: Seq<u64>) -> Seq<u64> {
    subscribers.filter(|id: u64| failed.contains(id))
}

/// A bound listening socket with the connections accepted on it.
pub struct Channel {
    listening: bool,
    subscribers: Vec<u64>,
}

impl Channel {
    /// The handles of the current subscribers, oldest first.
    pub closed spec fn subscribers(&self) -> Seq<u64> {
        self.subscribers@
    }

    /// Whether the channel still accepts subscribers.
    pub closed spec fn listening(&self) -> bool {
        self.listening
    }

    /// What holds of every channel: no handle stands twice among the
    /// subscribers, and a stopped channel has none.
    pub open spec fn wf(&self) -> bool {
        &&& self.subscribers().no_duplicates()
        &&& !self.listening() ==> self.subscribers().len() == 0
    }

    /// Starts a channel from the outcome of binding its socket: listening
    /// and without subscribers where the socket was bound, `Bind` where it
    /// was not.
    pub fn open(bound: bool) -> (result: Result<Channel, IpcError>)
        ensures
            match result {
                Ok(channel) => bound && channel.wf() && channel.listening()
                    && channel.subscribers().len() == 0,
                Err(e) => !bound && e == IpcError::Bind,
            },
    {
        if bound {
            Ok(Channel { listening: true, subscribers: Vec::new() })
        } else {
            Err(IpcError::Bind)
        }
    }

    /// Whether the channel still accepts subscribers.
    pub fn is_listening(&self) -> (listening: bool)
        ensures
            listening == self.listening(),
    {
        self.listening
    }

    /// Number of current subscribers.
    pub fn subscriber_count(&self) -> (count: usize)
        ensures
            count == self.subscribers().len(),
    {
        self.subscribers.len()
    }

    /// Whether `id` is a current subscriber.
    pub fn is_subscribed(&self, id: u64) -> (found: bool)
        ensures
            found == self.subscribers().contains(id),
    {
        contains_id(&self.subscribers, id)
    }

    /// One turn of the accept loop. `incoming` is the handle of the
    /// connection just accepted, or `None` where accepting failed.
    ///
    /// A listening channel takes the connection in, unless its handle is
    /// that of a current subscriber; a failed accept changes nothing and
    /// does not end the loop. A stopped channel takes nothing. The result
    /// says whether the loop goes on.
    pub fn accept(&mut self, incoming: Option<u64>) -> (go_on: bool)
        requires
            old(self).wf(),
        ensures
            final(self).wf(),
            go_on == old(self).listening(),
            final(self).listening() == old(self).listening(),
            final(self).subscribers() == match incoming {
                Some(id) if old(self).listening() && !old(self).subscribers().contains(id) =>
                    old(self).subscribers().push(id),
                _ => old(self).subscribers(),
            },
    {
        if !self.listening {
            return false;
        }
        match incoming {
            Some(id) => {
                if !contains_id(&self.subscribers, id) {
                    self.subscribers.push(id);
                }
            },
            None => {},
        }
        true
    }

    /// The current subscribers, oldest first, each once.
    pub fn targets(&self) -> (ids: Vec<u64>)
        ensures
            ids@ == self.subscribers(),
    {
        self.subscribers.clone()
    }

    /// Removes every subscriber named in `failed`; the others stay in their
    /// order. The set never grows here.
    pub fn prune(&mut self, failed: &Vec<u64>)
        requires
            old(self).wf(),
        ensures
            final(self).wf(),
            final(self).listening() == old(self).listening(),
            final(self).subscribers() == survivors(old(self).subscribers(), failed@),
    {
        let mut kept: Vec<u64> = Vec::new();
        let mut i: usize = 0;
        while i < self.subscribers.len()
            invariant
                i <= self.subscribers.len(),
                self.subscribers@ == old(self).subscribers@,
                self.listening == old(self).listening,
                kept@ == survivors(self.subscribers@.take(i as int), failed@),
            decreases self.subscribers.len() - i,
        {
            let id = self.subscribers[i];
            proof {
                let pred = |id: u64| !failed@.contains(id);
                let before = self.subscribers@.take(i as int);
                assert(self.subscribers@.take(i + 1) =~= before.push(id));
                before.lemma_filter_push(id, pred);
            }
            if !contains_id(failed, id) {
                kept.push(id);
            }
            i += 1;
        }
        proof {
            assert(self.subscribers@.take(i as int) =~= self.subscribers@);
            lemma_survivors_distinct(self.subscribers@, failed@);
            if !self.listening {
                assert(kept@.len() == 0) by {
                    self.subscribers@.lemma_filter_len(|id: u64| !failed@.contains(id));
                }
            }
        }
        self.subscribers = kept;
    }

    /// Ends a publish: the targets whose write failed are removed, everyone
    /// else stays, also who was accepted since the publish began.
    pub fn finish(&mut self, delivery: &Delivery)
        requires
            old(self).wf(),
        ensures
            final(self).wf(),
            final(self).listening() == old(self).listening(),
            final(self).subscribers() == survivors(
                old(self).subscribers(),
                marked(delivery@.targets, delivery@.outcomes),
            ),
    {
        let failed = delivery.failed();
        self.prune(&failed);
    }

    /// Teardown: the channel stops accepting and lets go of every
    /// subscriber.
    pub fn stop(&mut self)
        ensures
            final(self).wf(),
            !final(self).listening(),
            final(self).subscribers().len() == 0,
    {
        self.listening = false;
        self.subscribers = Vec::new();
    }
}

/// Whether `id` occurs in `ids`.
fn contains_id(ids: &Vec<u64>, id: u64) -> (found: bool)
    ensures
        found == ids@.contains(id),
{
    let mut i: usize = 0;
    while i < ids.len()
        invariant
            i <= ids.len(),
            forall|k: int| 0 <= k < i ==> ids@[k] != id,
        decreases ids.len() - i,
    {
        if ids[i] == id {
            return true;
        }
        i += 1;
    }
    false
}

/// Pruning keeps the subscribers distinct and adds none.
pub proof fn lemma_survivors_distinct(subscribers: Seq<u64>, failed: Seq<u64>)
    requires
        subscribers.no_duplicates(),
    ensures
        survivors(subscribers, failed).no_duplicates(),
        survivors(subscribers, failed).len() <= subscribers.len(),
        forall|id: u64|
            survivors(subscribers, failed).contains(id) <==> subscribers.contains(id)
                && !failed.contains(id),
{
    let pred = |id: u64| !failed.contains(id);
    let kept = subscribers.filter(pred);
    broadcast use vstd::seq_lib::group_filter_ensures;
    subscribers.lemma_filter_len(pred);
    lemma_filter_distinct(subscribers, pred);
    assert forall|id: u64| kept.contains(id) <==> subscribers.contains(id) && !failed.contains(
        id,
    ) by {
        if kept.contains(id) {
            let i = choose|i: int| 0 <= i < kept.len() && kept[i] == id;
            assert(pred(kept[i]));
            subscribers.lemma_filter_contains_rev(pred, id);
        }
        if subscribers.contains(id) && !failed.contains(id) {
            let i = choose|i: int| 0 <= i < subscribers.len() && subscribers[i] == id;
            assert(pred(subscribers[i]));
        }
    }
}

/// Of `k` distinct subscribers, of which the `j` named in `failed` had
/// their write go wrong, exactly `k - j` stay.
pub proof fn lemma_prune_count(subscribers: Seq<u64>, failed: Seq<u64>)
    requires
        subscribers.no_duplicates(),
        failed.no_duplicates(),
        forall|id: u64| failed.contains(id) ==> subscribers.contains(id),
    ensures
        survivors(subscribers, failed).len() == subscribers.len() - failed.len(),
{
    let lost = casualties(subscribers, failed);
    let pred = |id: u64| failed.contains(id);
    lemma_partition_len(subscribers, failed);
    lemma_filter_distinct(subscribers, pred);
    broadcast use vstd::seq_lib::group_filter_ensures;
    assert forall|id: u64| lost.to_set().contains(id) <==> failed.to_set().contains(id) by {
        if lost.contains(id) {
            let i = choose|i: int| 0 <= i < lost.len() && lost[i] == id;
            assert(pred(lost[i]));
        }
        if failed.contains(id) {
            let i = choose|i: int| 0 <= i < subscribers.len() && subscribers[i] == id;
            assert(pred(subscribers[i]));
            assert(lost.contains(subscribers[i]));
        }
    }
    assert(lost.to_set() =~= failed.to_set());
    lost.unique_seq_to_set();
    failed.unique_seq_to_set();
}

/// A publish adds nobody: a channel without subscribers has none after any
/// publish, so each of a row of publishes finds it without.
pub proof fn lemma_idle_stays_idle(failed: Seq<u64>)
    ensures
        survivors(Seq::<u64>::empty(), failed) == Seq::<u64>::empty(),
{
    Seq::<u64>::empty().lemma_filter_len(|id: u64| !failed.contains(id));
    assert(survivors(Seq::<u64>::empty(), failed) =~= Seq::<u64>::empty());
}

/// Every subscriber either stays or goes.
pub proof fn lemma_partition_len(subscribers: Seq<u64>, failed: Seq<u64>)
    ensures
        survivors(subscribers, failed).len() + casualties(subscribers, failed).len()
            == subscribers.len(),
    decreases subscribers.len(),
{
    reveal(Seq::filter);
    if subscribers.len() > 0 {
        lemma_partition_len(subscribers.drop_last(), failed);
    }
}

/// What is marked after some writes: each target whose write failed, once.
pub proof fn lemma_marked(targets: Seq<u64>, outcomes: Seq<bool>)
    requires
        targets.no_duplicates(),
        outcomes.len() <= targets.len(),
    ensures
        marked(targets, outcomes).no_duplicates(),
        marked(targets, outcomes).len() == failures(outcomes),
        forall|id: u64|
            marked(targets, outcomes).contains(id) <==> exists|i: int|
                0 <= i < outcomes.len() && targets[i] == id && !outcomes[i],
    decreases outcomes.len(),
{
    if outcomes.len() > 0 {
        let earlier = outcomes.drop_last();
        let last = outcomes.len() - 1;
        lemma_marked(targets, earlier);
        let before = marked(targets, earlier);
        let now = marked(targets, outcomes);
        assert forall|id: u64| now.contains(id) <==> exists|i: int|
            0 <= i < outcomes.len() && targets[i] == id && !outcomes[i] by {
            if now.contains(id) {
                let k = choose|k: int| 0 <= k < now.len() && now[k] == id;
                if k < before.len() {
                    assert(before.contains(now[k]));
                    let i = choose|i: int| 0 <= i < earlier.len() && targets[i] == id && !earlier[i];
                    assert(!outcomes[i]);
                } else {
                    assert(targets[last] == id && !outcomes[last]);
                }
            }
            if exists|i: int| 0 <= i < outcomes.len() && targets[i] == id && !outcomes[i] {
                let i = choose|i: int| 0 <= i < outcomes.len() && targets[i] == id && !outcomes[i];
                if i < last {
                    assert(!earlier[i]);
                    assert(before.contains(id));
                    let k = choose|k: int| 0 <= k < before.len() && before[k] == id;
                    assert(now[k] == id);
                } else {
                    assert(now[now.len() - 1] == id);
                }
            }
        }
        if !outcomes.last() {
            assert forall|k: int| 0 <= k < before.len() implies before[k] != targets[last] by {
                assert(before.contains(before[k]));
                let i = choose|i: int|
                    0 <= i < earlier.len() && targets[i] == before[k] && !earlier[i];
                assert(targets[i] != targets[last]);
            }
        }
    }
}

/// Of `k` subscribers, of which `j` had their write fail, exactly `k - j`
/// stay after the publish: those whose write went through.
pub proof fn lemma_publish_count(subscribers: Seq<u64>, outcomes: Seq<bool>)
    requires
        subscribers.no_duplicates(),
        outcomes.len() == subscribers.len(),
    ensures
        survivors(subscribers, marked(subscribers, outcomes)).len() == subscribers.len()
            - failures(outcomes),
        forall|i: int|
            0 <= i < subscribers.len() ==> (survivors(
                subscribers,
                marked(subscribers, outcomes),
            ).contains(#[trigger] subscribers[i]) <==> outcomes[i]),
{
    let failed = marked(subscribers, outcomes);
    lemma_marked(subscribers, outcomes);
    lemma_prune_count(subscribers, failed);
    lemma_survivors_distinct(subscribers, failed);
    assert forall|i: int| 0 <= i < subscribers.len() implies (survivors(
        subscribers,
        failed,
    ).contains(#[trigger] subscribers[i]) <==> outcomes[i]) by {
        if !outcomes[i] {
            assert(failed.contains(subscribers[i]));
        }
        if failed.contains(subscribers[i]) {
            let k = choose|k: int|
                0 <= k < outcomes.len() && subscribers[k] == subscribers[i] && !outcomes[k];
            assert(k == i);
        }
    }
}

/// Whoever stays after a publish was a target of it, and every target was
/// to be written the same bytes: those of the delivery.
pub proof fn lemma_survivors_share_bytes(delivery: DeliveryState, failed: Seq<u64>)
    ensures
        forall|id: u64|
            survivors(delivery.targets, failed).contains(id) ==> delivery.writes().contains(
                (id, delivery.bytes),
            ),
        forall|i: int|
            0 <= i < delivery.writes().len() ==> (#[trigger] delivery.writes()[i]).1
                == delivery.bytes,
{
    let pred = |id: u64| !failed.contains(id);
    assert forall|id: u64| survivors(delivery.targets, failed).contains(id) implies delivery.writes().contains(
        (id, delivery.bytes),
    ) by {
        delivery.targets.lemma_filter_contains_rev(pred, id);
        let i = choose|i: int| 0 <= i < delivery.targets.len() && delivery.targets[i] == id;
        assert(delivery.writes()[i] == (id, delivery.bytes));
    }
}

/// A filter of a sequence without repeats has no repeats.
proof fn lemma_filter_distinct(s: Seq<u64>, pred: spec_fn(u64) -> bool)
    requires
        s.no_duplicates(),
    ensures
        s.filter(pred).no_duplicates(),
    decreases s.len(),
{
    reveal(Seq::filter);
    if s.len() > 0 {
        let rest = s.drop_last();
        broadcast use vstd::seq_lib::group_filter_ensures;
        lemma_filter_distinct(rest, pred);
        if pred(s.last()) {
            let kept = rest.filter(pred);
            assert forall|i: int| 0 <= i < kept.len() implies kept[i] != s.last() by {
                assert(kept.contains(kept[i]));
                rest.lemma_filter_contains_rev(pred, kept[i]);
                let j = choose|j: int| 0 <= j < rest.len() && rest[j] == kept[i];
                assert(s[j] == kept[i]);
            }
        }
    }
}

} // verus!
