//! Bounded, reusable packet pool: the unit of data handed between pipeline
//! stages.
//!
//! A pool owns a fixed set of payload buffers. Allocation hands one out as
//! an exclusively owned [`Packet`]; release returns it. The pool's capacity
//! never changes, and the number of live packets can never exceed it —
//! exhaustion surfaces as an explicit failed allocation (strict mode), which
//! a blocking shell may turn into a wait-and-retry loop (non-strict mode).

use vstd::prelude::*;

verus! {

/// Identifier of a live pipeline-stage instance.
#[derive(Clone, Copy, PartialEq, Eq, Hash, Debug, Structural)]
pub struct ExecutorAddress {
    /// Which executor kind the instance runs.
    pub executor_kind: u64,
    /// Which instance of that kind.
    pub instance_id: u64,
}

/// Non-owning form of an [`ExecutorAddress`], usable for addressing and
/// hashing without extending the instance's lifetime.
#[derive(Clone, Copy, PartialEq, Eq, Hash, Debug, Structural)]
pub struct WeakExecutorAddress {
    /// Which executor kind the instance runs.
    pub executor_kind: u64,
    /// Which instance of that kind.
    pub instance_id: u64,
}

impl ExecutorAddress {
    /// The non-owning form of this address.
    pub fn to_weak(&self) -> (r: WeakExecutorAddress)
        ensures
            r.executor_kind == self.executor_kind,
            r.instance_id == self.instance_id,
    {
        WeakExecutorAddress { executor_kind: self.executor_kind, instance_id: self.instance_id }
    }
}

/// An exclusively owned, pooled payload, tagged with the stage that
/// produced it. Not clonable: a packet has exactly one holder, so releasing
/// it twice is impossible by construction.
pub struct Packet<T> {
    /// The payload.
    pub value: T,
    /// The stage that produced this packet, once one has claimed it.
    pub source: Option<WeakExecutorAddress>,
}

/// A bounded pool of reusable payloads of one type.
pub struct PacketsPool<T> {
    free: Vec<T>,
    live: usize,
}

impl<T> PacketsPool<T> {
    /// The accounting stays within machine bounds.
    pub closed spec fn wf(self) -> bool {
        self.free@.len() + self.live <= usize::MAX
    }

    /// The fixed number of payloads this pool owns, free and live together.
    pub closed spec fn capacity(self) -> int {
        self.free@.len() + self.live
    }

    /// How many packets are currently allocated out of the pool.
    pub closed spec fn live_count(self) -> int {
        self.live as int
    }

    /// A pool owning the given payloads; its capacity is their number and
    /// never changes.
    pub fn new(initial: Vec<T>) -> (r: Self)
        ensures
            r.wf(),
            r.capacity() == initial@.len(),
            r.live_count() == 0,
    {
        proof {
            assert(initial@.len() == initial.len());
        }
        PacketsPool { free: initial, live: 0 }
    }

    /// How many packets could still be allocated right now.
    pub fn get_available_items(&self) -> (r: usize)
        ensures
            r == self.capacity() - self.live_count(),
    {
        self.free.len()
    }

    /// Strict allocation: hands out a packet exactly when the pool is not
    /// exhausted, and fails immediately — leaving the pool untouched —
    /// when it is. A non-strict (blocking) shell retries this until it
    /// succeeds. The total of live packets never exceeds the capacity.
    pub fn alloc_packet(&mut self) -> (r: Option<Packet<T>>)
        requires
            old(self).wf(),
        ensures
            final(self).wf(),
            final(self).capacity() == old(self).capacity(),
            r is Some <==> old(self).live_count() < old(self).capacity(),
            r is Some ==> final(self).live_count() == old(self).live_count() + 1,
            r is None ==> final(self).live_count() == old(self).live_count(),
            final(self).live_count() <= final(self).capacity(),
    {
        match self.free.pop() {
            Some(value) => {
                self.live = self.live + 1;
                Some(Packet { value, source: None })
            },
            None => None,
        }
    }

    /// Returns a packet's payload to the pool. Each packet is released
    /// exactly once: releasing consumes it, and a packet can only exist
    /// because an allocation succeeded.
    pub fn release_packet(&mut self, packet: Packet<T>)
        requires
            old(self).wf(),
            old(self).live_count() > 0,
        ensures
            final(self).wf(),
            final(self).capacity() == old(self).capacity(),
            final(self).live_count() == old(self).live_count() - 1,
    {
        let Packet { value, source } = packet;
        self.free.push(value);
        self.live = self.live - 1;
    }
}

} // verus!
