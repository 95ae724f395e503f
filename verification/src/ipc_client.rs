//! The pool of client connection slots.
//!
//! A pool has a fixed number of slots, each holding a connection or
//! nothing. Requests take the slots in turn. A request whose slot is empty
//! connects first; a request that fails in any way leaves its slot empty,
//! so that the next request for that slot connects anew. Nothing is tried
//! twice within one request.
//!
//! The embedding program owns the connections and does the connecting,
//! writing and reading. It tells the pool what came of each step.

use crate::error::IpcError;
use crate::text::{
    decode_text_response, encode_text_request, json_document, max_segment_len, response_text,
    text_request,
};
use vstd::prelude::*;

verus! {

/// A pool as the contracts see it.
pub struct PoolState {
    /// For each slot, whether it holds a connection.
    pub slots: Seq<bool>,
    /// The slot that the next request goes to.
    pub cursor: nat,
}

/// What the outside does to one request.
pub struct Fate {
    /// Whether a connection attempt, if the request makes one, succeeds.
    pub connect: bool,
    /// Whether the exchange, if it comes to one, brings a response that
    /// decodes.
    pub exchange: bool,
}

impl PoolState {
    /// The cursor names a slot, or is zero in a pool without slots.
    pub open spec fn wf(self) -> bool {
        if self.slots.len() == 0 {
            self.cursor == 0
        } else {
            self.cursor < self.slots.len()
        }
    }

    /// A pool of `size` slots, all connected, before its first request.
    pub open spec fn fresh(size: nat) -> PoolState {
        PoolState { slots: Seq::new(size, |i: int| true), cursor: 0 }
    }

    /// The pool after the cursor moved on by one slot, wrapping at the end.
    pub open spec fn advance(self) -> PoolState {
        PoolState { slots: self.slots, cursor: (self.cursor + 1) % self.slots.len() }
    }

    /// The pool with `slot` holding a connection or not.
    pub open spec fn with_slot(self, slot: int, connected: bool) -> PoolState {
        PoolState { slots: self.slots.update(slot, connected), cursor: self.cursor }
    }

    /// The pool after the exchange on `slot` ended well or not: a failure
    /// empties the slot, a success leaves it as it is.
    pub open spec fn after_exchange(self, slot: int, succeeded: bool) -> PoolState {
        if succeeded {
            self
        } else {
            self.with_slot(slot, false)
        }
    }

    /// How many connection attempts the next request makes: one where its
    /// slot is empty, none where it is not.
    pub open spec fn connect_attempts(self) -> nat {
        if self.slots[self.cursor as int] {
            0
        } else {
            1
        }
    }

    /// Whether the next request, meeting `fate`, is answered.
    pub open spec fn answered(self, fate: Fate) -> bool {
        (self.slots[self.cursor as int] || fate.connect) && fate.exchange
    }

    /// The pool after one whole request that met `fate`: the slot is taken,
    /// connected if empty, and used for the exchange if it holds a
    /// connection by then.
    pub open spec fn request(self, fate: Fate) -> PoolState {
        let slot = self.cursor as int;
        let taken = self.advance();
        if taken.slots[slot] {
            taken.after_exchange(slot, fate.exchange)
        } else if fate.connect {
            taken.with_slot(slot, true).after_exchange(slot, fate.exchange)
        } else {
            taken.with_slot(slot, false)
        }
    }

    /// The pool after one request for each of `fates`, in order.
    pub open spec fn requests(self, fates: Seq<Fate>) -> PoolState
        decreases fates.len(),
    {
        if fates.len() == 0 {
            self
        } else {
            self.requests(fates.drop_last()).request(fates.last())
        }
    }
}

/// What a request is to do on the wire.
pub struct Request {
    /// The slot whose connection carries the request.
    pub slot: usize,
    /// Whether the slot is empty, so that a connection is to be made first.
    pub reconnect: bool,
    /// The request line to send.
    pub line: String,
}

/// The pool of connection slots with its round-robin counter.
pub struct IpcClient {
    slots: Vec<bool>,
    counter: usize,
}

impl View for IpcClient {
    type V = PoolState;

    closed spec fn view(&self) -> PoolState {
        PoolState { slots: self.slots@, cursor: self.counter as nat }
    }
}

impl IpcClient {
    /// What holds of every pool.
    pub open spec fn wf(&self) -> bool {
        self@.wf()
    }

    /// Builds the pool from the outcomes of the first connection attempts,
    /// one per slot, in slot order. Every slot must have connected: with any
    /// attempt failed there is no pool, and the result is `Connect`.
    pub fn new(established: &Vec<bool>) -> (result: Result<IpcClient, IpcError>)
        ensures
            match result {
                Ok(pool) => {
                    &&& pool.wf()
                    &&& pool@ == PoolState::fresh(established@.len())
                    &&& forall|i: int| 0 <= i < established@.len() ==> established@[i]
                },
                Err(e) => {
                    &&& e == IpcError::Connect
                    &&& exists|i: int| 0 <= i < established@.len() && !established@[i]
                },
            },
    {
        let mut i: usize = 0;
        while i < established.len()
            invariant
                i <= established.len(),
                forall|k: int| 0 <= k < i ==> established@[k],
            decreases established.len() - i,
        {
            if !established[i] {
                return Err(IpcError::Connect);
            }
            i += 1;
        }
        let pool = IpcClient { slots: established.clone(), counter: 0 };
        assert(pool@.slots =~= PoolState::fresh(established@.len()).slots);
        Ok(pool)
    }

    /// Number of slots.
    pub fn pool_size(&self) -> (size: usize)
        ensures
            size == self@.slots.len(),
    {
        self.slots.len()
    }

    /// Takes the next slot in turn and moves the counter on, back to the
    /// first slot after the last.
    pub fn select_slot(&mut self) -> (slot: usize)
        requires
            old(self).wf(),
            old(self)@.slots.len() > 0,
        ensures
            final(self).wf(),
            slot == old(self)@.cursor,
            final(self)@ == old(self)@.advance(),
    {
        let size = self.slots.len();
        proof {
            let turn = self.counter as nat;
            vstd::arithmetic::div_mod::lemma_small_mod(turn, size as nat);
            if turn + 1 < size {
                vstd::arithmetic::div_mod::lemma_small_mod(turn + 1, size as nat);
            } else {
                vstd::arithmetic::div_mod::lemma_mod_self_0(size as int);
            }
        }
        let slot = self.counter % size;
        if slot >= size - 1 {
            self.counter = 0;
        } else {
            self.counter = slot + 1;
        }
        slot
    }

    /// Whether `slot` is empty, so that a request on it has to connect
    /// first.
    pub fn needs_connect(&self, slot: usize) -> (empty: bool)
        requires
            slot < self@.slots.len(),
        ensures
            empty == !self@.slots[slot as int],
    {
        !self.slots[slot]
    }

    /// Takes note of a connection attempt for `slot`. An established
    /// connection fills the slot. A failed attempt leaves it empty and is
    /// the request's error: `Connect`.
    pub fn record_connect(&mut self, slot: usize, established: bool) -> (result: Result<
        (),
        IpcError,
    >)
        requires
            old(self).wf(),
            slot < old(self)@.slots.len(),
        ensures
            final(self).wf(),
            final(self)@ == old(self)@.with_slot(slot as int, established),
            result == if established {
                Ok::<(), IpcError>(())
            } else {
                Err::<(), IpcError>(IpcError::Connect)
            },
    {
        self.slots.set(slot, established);
        if established {
            Ok(())
        } else {
            Err(IpcError::Connect)
        }
    }

    /// Empties `slot`, whatever it holds.
    pub fn invalidate(&mut self, slot: usize)
        requires
            old(self).wf(),
            slot < old(self)@.slots.len(),
        ensures
            final(self).wf(),
            final(self)@ == old(self)@.with_slot(slot as int, false),
    {
        self.slots.set(slot, false);
    }

    /// Ends a request on `slot` with `outcome`, which is handed on as it
    /// is. A failure empties the slot, so that the next request for it
    /// connects anew; a success leaves the slot as it is.
    pub fn settle(&mut self, slot: usize, outcome: Result<serde_json::Value, IpcError>) -> (result:
        Result<serde_json::Value, IpcError>)
        requires
            old(self).wf(),
            slot < old(self)@.slots.len(),
        ensures
            final(self).wf(),
            final(self)@ == old(self)@.after_exchange(slot as int, outcome is Ok),
            result == outcome,
    {
        if outcome.is_err() {
            self.slots.set(slot, false);
        }
        outcome
    }

    /// Ends the exchange on `slot`. `reply` is the line that was read, or
    /// `None` where writing the request or reading the line failed.
    ///
    /// A line that decodes is the response, and the slot stays as it is. A
    /// failed exchange gives `Io`, a line that does not decode gives
    /// `Decode`; either empties the slot.
    pub fn finish(&mut self, slot: usize, reply: Option<&str>) -> (result: Result<
        serde_json::Value,
        IpcError,
    >)
        requires
            old(self).wf(),
            slot < old(self)@.slots.len(),
        ensures
            final(self).wf(),
            final(self)@ == old(self)@.after_exchange(slot as int, result is Ok),
            match reply {
                None => result == Err::<serde_json::Value, IpcError>(IpcError::Io),
                Some(line) => match json_document(response_text(line@)) {
                    Some(value) => result == Ok::<serde_json::Value, IpcError>(value),
                    None => result == Err::<serde_json::Value, IpcError>(IpcError::Decode),
                },
            },
    {
        let outcome = match reply {
            None => Err(IpcError::Io),
            Some(line) => decode_text_response(line),
        };
        self.settle(slot, outcome)
    }

    /// Begins a request: the request line for the serialized transaction
    /// and the serialized override objects, the slot that is next in turn,
    /// and whether that slot has to be connected first.
    pub fn dry_run_transaction_block_override(
        &mut self,
        tx: Vec<u8>,
        override_objects: Vec<u8>,
    ) -> (request: Request)
        requires
            old(self).wf(),
            old(self)@.slots.len() > 0,
            tx@.len() <= max_segment_len(),
            override_objects@.len() <= max_segment_len(),
        ensures
            final(self).wf(),
            final(self)@ == old(self)@.advance(),
            request.slot == old(self)@.cursor,
            request.reconnect == (old(self)@.connect_attempts() == 1),
            request.line@ == text_request(seq![tx@, override_objects@]),
    {
        let mut parts: Vec<Vec<u8>> = Vec::new();
        parts.push(tx);
        parts.push(override_objects);
        let line = encode_text_request(&parts);
        assert(parts.deep_view() =~= seq![tx@, override_objects@]) by {
            assert(parts.deep_view()[0] =~= tx@);
            assert(parts.deep_view()[1] =~= override_objects@);
        }
        let slot = self.select_slot();
        let reconnect = self.needs_connect(slot);
        Request { slot, reconnect, line }
    }
}

/// A request changes its own slot only, moves the cursor on by one, and
/// leaves its slot filled exactly when it was answered.
pub proof fn lemma_request_outcome(pool: PoolState, fate: Fate)
    requires
        pool.wf(),
        pool.slots.len() > 0,
    ensures
        pool.request(fate).wf(),
        pool.request(fate).cursor == (pool.cursor + 1) % pool.slots.len(),
        pool.request(fate).slots == pool.slots.update(pool.cursor as int, pool.answered(fate)),
{
    let size = pool.slots.len();
    vstd::arithmetic::div_mod::lemma_mod_bound((pool.cursor + 1) as int, size as int);
    assert(pool.request(fate).slots =~= pool.slots.update(
        pool.cursor as int,
        pool.answered(fate),
    ));
}

/// After `fates.len()` requests the cursor has moved on by as many slots,
/// wrapping at the end, whatever became of the requests.
pub proof fn lemma_turns(pool: PoolState, fates: Seq<Fate>)
    requires
        pool.wf(),
        pool.slots.len() > 0,
    ensures
        pool.requests(fates).wf(),
        pool.requests(fates).slots.len() == pool.slots.len(),
        pool.requests(fates).cursor == (pool.cursor + fates.len()) % pool.slots.len(),
    decreases fates.len(),
{
    let size = pool.slots.len() as int;
    if fates.len() == 0 {
        vstd::arithmetic::div_mod::lemma_small_mod(pool.cursor, size as nat);
    } else {
        let earlier = fates.drop_last();
        lemma_turns(pool, earlier);
        lemma_request_outcome(pool.requests(earlier), fates.last());
        vstd::arithmetic::div_mod::lemma_add_mod_noop_right(
            1,
            (pool.cursor + earlier.len()) as int,
            size,
        );
    }
}

/// Round robin: in a new pool of `size` slots the request that follows
/// `fates.len()` earlier ones goes to slot `fates.len() % size`, so slot `i`
/// serves the requests `i`, `i + size`, `i + 2 * size` and so on. This holds
/// whatever became of the earlier requests; where none of them failed, every
/// slot still holds its connection and the request connects nothing.
pub proof fn lemma_round_robin(size: nat, fates: Seq<Fate>)
    requires
        size > 0,
    ensures
        PoolState::fresh(size).requests(fates).cursor == fates.len() % size,
        (forall|k: int| 0 <= k < fates.len() ==> (#[trigger] fates[k]).exchange) ==> {
            &&& PoolState::fresh(size).requests(fates).slots == PoolState::fresh(size).slots
            &&& PoolState::fresh(size).requests(fates).connect_attempts() == 0
        },
    decreases fates.len(),
{
    let pool = PoolState::fresh(size);
    lemma_turns(pool, fates);
    if forall|k: int| 0 <= k < fates.len() ==> (#[trigger] fates[k]).exchange {
        if fates.len() > 0 {
            let earlier = fates.drop_last();
            assert forall|k: int| 0 <= k < earlier.len() implies (#[trigger] earlier[k]).exchange by {
                assert(earlier[k] == fates[k]);
            }
            lemma_round_robin(size, earlier);
            lemma_turns(pool, earlier);
            lemma_request_outcome(pool.requests(earlier), fates.last());
            assert(fates.last() == fates[fates.len() - 1]);
            assert(pool.requests(fates).slots =~= pool.slots);
        }
    }
}

/// Reconnect: once `slot` is emptied it stays empty while the requests go
/// to other slots, and the next request that goes to it makes exactly one
/// connection attempt. That request is answered, and leaves the slot
/// filled, exactly when the attempt and the exchange after it succeed.
pub proof fn lemma_reconnect_once(pool: PoolState, slot: nat, fates: Seq<Fate>, fate: Fate)
    requires
        pool.wf(),
        slot < pool.slots.len(),
        forall|k: int|
            0 <= k < fates.len() ==> (#[trigger] pool.with_slot(slot as int, false).requests(
                fates.take(k),
            )).cursor != slot,
        pool.with_slot(slot as int, false).requests(fates).cursor == slot,
    ensures
        pool.with_slot(slot as int, false).requests(fates).connect_attempts() == 1,
        pool.with_slot(slot as int, false).requests(fates).answered(fate) == (fate.connect
            && fate.exchange),
        pool.with_slot(slot as int, false).requests(fates).request(fate).slots[slot as int] == (
        fate.connect && fate.exchange),
{
    let emptied = pool.with_slot(slot as int, false);
    lemma_stays_empty(emptied, slot, fates);
    lemma_turns(emptied, fates);
    lemma_request_outcome(emptied.requests(fates), fate);
}

/// An empty slot stays empty while no request goes to it.
proof fn lemma_stays_empty(pool: PoolState, slot: nat, fates: Seq<Fate>)
    requires
        pool.wf(),
        slot < pool.slots.len(),
        !pool.slots[slot as int],
        forall|k: int|
            0 <= k < fates.len() ==> (#[trigger] pool.requests(fates.take(k))).cursor != slot,
    ensures
        !pool.requests(fates).slots[slot as int],
    decreases fates.len(),
{
    if fates.len() > 0 {
        let earlier = fates.drop_last();
        assert forall|k: int| 0 <= k < earlier.len() implies (#[trigger] pool.requests(
            earlier.take(k),
        )).cursor != slot by {
            assert(earlier.take(k) =~= fates.take(k));
        }
        lemma_stays_empty(pool, slot, earlier);
        lemma_turns(pool, earlier);
        assert(fates.take(fates.len() - 1) =~= earlier);
        assert(pool.requests(earlier).cursor != slot);
        lemma_request_outcome(pool.requests(earlier), fates.last());
    }
}

} // verus!
