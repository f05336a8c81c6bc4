//! Executor capability and the scheduling state machine around it.
//!
//! A pipeline stage implements [`Executor`]: one-time setup, per-packet
//! processing, a finished test, and a final flush. An [`ExecutionManager`]
//! wraps one executor instance together with its output packet pool and
//! drives it one scheduling step at a time: the surrounding scheduler pulls
//! `(packet, queue depth)` from the stage's input queue and hands the pair
//! in, and the step reports exactly one [`ExecutionStatus`] back. Resource
//! exhaustion and an empty-but-open queue are statuses, not errors, so a
//! scheduler multiplexing many stages over a bounded worker pool can retry
//! later instead of blocking; a closed queue (`None` depth) is final.

use vstd::prelude::*;
use crate::packet_pool::{ExecutorAddress, Packet, PacketsPool, WeakExecutorAddress};

verus! {

/// The externally observable result of one scheduling step.
#[derive(Clone, Copy, PartialEq, Eq, Debug, Structural)]
pub enum ExecutionStatus {
    /// The queue was empty this step and nothing was processed; retry
    /// later.
    NoMorePacketsNoProgress,
    /// A packet was processed and the queue is now empty (but still open).
    NoMorePackets,
    /// A packet was processed and more are already queued.
    MorePackets,
    /// The stage's output pool is exhausted; retry once packets free up.
    OutputPoolFull,
    /// The stage is done: the executor reported finished, or its input
    /// queue is closed for good.
    Finished,
}

/// The capability a pipeline stage implements.
///
/// `pre_execute` runs once before any input and may already emit output;
/// `execute` processes one input packet, allocating output packets from the
/// given pool (strict mode: exhaustion surfaces to the scheduler instead of
/// blocking) and routing them through `outputs`; `finalize` flushes on
/// teardown. None of them may swap the output pool for a different one:
/// its capacity is the stage's memory bound.
pub trait Executor: Sized {
    /// Payload type of input packets.
    type InputPacket;

    /// Payload type of output packets.
    type OutputPacket;

    /// One-time setup parameters.
    type BuildParams;

    /// Whether this stage has finished for good.
    spec fn finished(&self) -> bool;

    /// One-time setup; may emit output before any input is consumed.
    fn pre_execute(
        &mut self,
        build_info: Self::BuildParams,
        pool: &mut PacketsPool<Self::OutputPacket>,
        outputs: &mut Vec<(ExecutorAddress, Packet<Self::OutputPacket>)>,
    )
        requires
            old(pool).wf(),
        ensures
            final(pool).wf(),
            final(pool).capacity() == old(pool).capacity(),
    ;

    /// Processes one input packet. If the stage needs an output packet and
    /// the strict allocator is exhausted, it hands the input back
    /// unprocessed — only then, and only when the pool really is full —
    /// instead of blocking, so the scheduler can retry the stage later.
    fn execute(
        &mut self,
        packet: Packet<Self::InputPacket>,
        pool: &mut PacketsPool<Self::OutputPacket>,
        outputs: &mut Vec<(ExecutorAddress, Packet<Self::OutputPacket>)>,
    ) -> (r: Option<Packet<Self::InputPacket>>)
        requires
            old(pool).wf(),
        ensures
            final(pool).wf(),
            final(pool).capacity() == old(pool).capacity(),
            r matches Some(p) ==> p == packet && final(pool).live_count()
                == final(pool).capacity(),
    ;

    /// Whether this stage has finished.
    fn is_finished(&self) -> (r: bool)
        ensures
            r == self.finished(),
    ;

    /// Flushes whatever the stage still buffers, on teardown.
    fn finalize(
        &mut self,
        pool: &mut PacketsPool<Self::OutputPacket>,
        outputs: &mut Vec<(ExecutorAddress, Packet<Self::OutputPacket>)>,
    )
        requires
            old(pool).wf(),
        ensures
            final(pool).wf(),
            final(pool).capacity() == old(pool).capacity(),
    ;
}

/// The status one scheduling step reports, given whether the executor is
/// finished afterwards, the reported queue depth, and whether a packet was
/// handed in. Priority order: a finished executor or a closed queue ends
/// the stage; an absent packet means no progress; otherwise the depth says
/// whether more input is already waiting. The one status outside this
/// mapping is `OutputPoolFull`, reported instead whenever the executor
/// hands its packet back on an exhausted output pool.
pub open spec fn spec_status(
    executor_finished: bool,
    queue_size: Option<usize>,
    had_packet: bool,
) -> ExecutionStatus {
    if executor_finished || queue_size is None {
        ExecutionStatus::Finished
    } else if !had_packet {
        ExecutionStatus::NoMorePacketsNoProgress
    } else if (match queue_size {
        Some(q) => q,
        None => 0,
    }) > 0 {
        ExecutionStatus::MorePackets
    } else {
        ExecutionStatus::NoMorePackets
    }
}

/// A closed input queue always ends the stage, whatever else happened: a
/// permanently closed, empty queue reports `Finished`, never
/// `NoMorePackets`.
pub proof fn lemma_closed_queue_finishes(executor_finished: bool, had_packet: bool)
    ensures
        spec_status(executor_finished, None, had_packet) == ExecutionStatus::Finished,
{
}

/// The scheduler-facing wrapper driving one executor instance: the
/// executor, its output packet pool, its pending one-time setup, and the
/// sticky finished flag.
pub struct ExecutionManager<E: Executor> {
    executor: E,
    weak_address: WeakExecutorAddress,
    pool: PacketsPool<E::OutputPacket>,
    build_info: Option<E::BuildParams>,
    is_finished: bool,
    queue_size: usize,
    finalized: bool,
}

impl<E: Executor> ExecutionManager<E> {
    /// The output pool's accounting is intact.
    pub closed spec fn wf(self) -> bool {
        self.pool.wf()
    }

    /// The sticky finished flag: once set, no step ever touches the
    /// executor again.
    pub closed spec fn finished_flag(self) -> bool {
        self.is_finished
    }

    /// Whether the wrapped executor itself reports finished.
    pub closed spec fn executor_finished(self) -> bool {
        self.executor.finished()
    }

    /// Whether one-time setup is still pending.
    pub closed spec fn pending_setup(self) -> bool {
        self.build_info is Some
    }

    /// The queue depth observed by the last step.
    pub closed spec fn queue_size_spec(self) -> int {
        self.queue_size as int
    }

    /// This stage's address.
    pub closed spec fn weak_address_spec(self) -> WeakExecutorAddress {
        self.weak_address
    }

    /// The output pool's fixed capacity.
    pub closed spec fn pool_capacity(self) -> int {
        self.pool.capacity()
    }

    /// Output packets currently allocated and not yet returned.
    pub closed spec fn pool_live(self) -> int {
        self.pool.live_count()
    }

    /// Whether teardown has already flushed the executor.
    pub closed spec fn finalized_flag(self) -> bool {
        self.finalized
    }

    /// The wrapped executor instance.
    pub closed spec fn executor_view(self) -> E {
        self.executor
    }

    /// Wraps one executor instance with its setup parameters, output pool,
    /// the depth its input queue reported at creation, and its address.
    pub fn new(
        executor: E,
        build_info: E::BuildParams,
        pool: PacketsPool<E::OutputPacket>,
        queue_size: usize,
        weak_address: WeakExecutorAddress,
    ) -> (r: Self)
        requires
            pool.wf(),
        ensures
            r.wf(),
            !r.finished_flag(),
            r.pending_setup(),
            !r.finalized_flag(),
            r.queue_size_spec() == queue_size,
            r.weak_address_spec() == weak_address,
            r.pool_capacity() == pool.capacity(),
            r.executor_finished() == executor.finished(),
    {
        ExecutionManager {
            executor,
            weak_address,
            pool,
            build_info: Some(build_info),
            is_finished: false,
            queue_size,
            finalized: false,
        }
    }

    /// One scheduling step.
    ///
    /// The caller pulls `(input, queue_size)` from the stage's input queue
    /// and hands the pair in: `queue_size == None` means the upstream
    /// producer is closed for good, `Some(0)` merely empty right now. The
    /// step runs pending setup first; if the stage is finished before the
    /// packet is touched — by setup, or because the executor already
    /// reported finished — the unconsumed packet comes back with
    /// `Finished`. If the executor hands the packet back because its
    /// strict output allocation hit an exhausted pool, the step reports
    /// `OutputPoolFull` and returns the packet for a later retry instead
    /// of blocking. `Finished` is sticky: once reported, every later step
    /// reports it again without ever invoking the executor.
    pub fn execute(
        &mut self,
        input: Option<Packet<E::InputPacket>>,
        queue_size: Option<usize>,
        outputs: &mut Vec<(ExecutorAddress, Packet<E::OutputPacket>)>,
    ) -> (r: (ExecutionStatus, Option<Packet<E::InputPacket>>))
        requires
            old(self).wf(),
        ensures
            final(self).wf(),
            final(self).pool_capacity() == old(self).pool_capacity(),
            final(self).weak_address_spec() == old(self).weak_address_spec(),
            final(self).finalized_flag() == old(self).finalized_flag(),
            (r.0 == ExecutionStatus::Finished) == final(self).finished_flag(),
            r.0 == ExecutionStatus::OutputPoolFull ==> final(self).pool_live()
                == final(self).pool_capacity(),
            old(self).finished_flag() ==> *final(self) == *old(self) && r.1 == input,
            !old(self).finished_flag() ==> !final(self).pending_setup(),
            // A stage whose executor already reports finished never sees
            // the packet: it comes back untouched, the executor untouched.
            (!old(self).finished_flag() && !old(self).pending_setup()
                && old(self).executor_finished()) ==> {
                &&& r.0 == ExecutionStatus::Finished
                &&& r.1 == input
                &&& final(self).executor_view() == old(self).executor_view()
                &&& final(self).queue_size_spec() == old(self).queue_size_spec()
            },
            !old(self).finished_flag() ==> {
                ||| {
                    // Finished before the packet was touched (by setup or
                    // an already-finished executor): packet handed back.
                    &&& r.0 == ExecutionStatus::Finished
                    &&& r.1 == input
                    &&& final(self).executor_finished()
                    &&& final(self).finished_flag()
                    &&& final(self).queue_size_spec() == old(self).queue_size_spec()
                }
                ||| {
                    // Strict output allocation exhausted mid-step: the
                    // unprocessed packet comes back for a later retry.
                    &&& r.0 == ExecutionStatus::OutputPoolFull
                    &&& r.1 == input
                    &&& input is Some
                    &&& !final(self).finished_flag()
                    &&& final(self).queue_size_spec() == (match queue_size {
                        Some(q) => q as int,
                        None => 0,
                    })
                }
                ||| {
                    // Normal step: the packet (if any) was processed.
                    &&& r.1 is None
                    &&& r.0 == spec_status(final(self).executor_finished(), queue_size, input is Some)
                    &&& final(self).queue_size_spec() == (match queue_size {
                        Some(q) => q as int,
                        None => 0,
                    })
                    &&& final(self).finished_flag() == (final(self).executor_finished()
                        || queue_size is None)
                }
            },
    {
        if self.is_finished {
            return (ExecutionStatus::Finished, input);
        }
        let mut build_info: Option<E::BuildParams> = None;
        std::mem::swap(&mut build_info, &mut self.build_info);
        match build_info {
            Some(params) => {
                self.executor.pre_execute(params, &mut self.pool, outputs);
            },
            None => {},
        }
        if self.executor.is_finished() {
            self.is_finished = true;
            return (ExecutionStatus::Finished, input);
        }
        let had_packet = input.is_some();
        let mut retry: Option<Packet<E::InputPacket>> = None;
        match input {
            Some(packet) => {
                retry = self.executor.execute(packet, &mut self.pool, outputs);
            },
            None => {},
        }
        self.queue_size = match queue_size {
            Some(q) => q,
            None => 0,
        };
        match retry {
            Some(packet) => {
                return (ExecutionStatus::OutputPoolFull, Some(packet));
            },
            None => {},
        }
        let finished_now = self.executor.is_finished();
        if finished_now || queue_size.is_none() {
            self.is_finished = true;
            (ExecutionStatus::Finished, None)
        } else if !had_packet {
            (ExecutionStatus::NoMorePacketsNoProgress, None)
        } else if self.queue_size > 0 {
            (ExecutionStatus::MorePackets, None)
        } else {
            (ExecutionStatus::NoMorePackets, None)
        }
    }

    /// Allocates one output packet from this stage's pool (strict mode:
    /// fails exactly when the pool is exhausted).
    pub fn alloc_output_packet(&mut self) -> (r: Option<Packet<E::OutputPacket>>)
        requires
            old(self).wf(),
        ensures
            final(self).wf(),
            final(self).pool_capacity() == old(self).pool_capacity(),
            r is Some <==> old(self).pool_live() < old(self).pool_capacity(),
            r is Some ==> final(self).pool_live() == old(self).pool_live() + 1,
    {
        self.pool.alloc_packet()
    }

    /// Returns a consumed output packet to this stage's pool.
    pub fn return_packet(&mut self, packet: Packet<E::OutputPacket>)
        requires
            old(self).wf(),
            old(self).pool_live() > 0,
        ensures
            final(self).wf(),
            final(self).pool_capacity() == old(self).pool_capacity(),
            final(self).pool_live() == old(self).pool_live() - 1,
    {
        self.pool.release_packet(packet)
    }

    /// Teardown: flushes the executor exactly once, however many times the
    /// owner calls this.
    pub fn finalize(
        &mut self,
        outputs: &mut Vec<(ExecutorAddress, Packet<E::OutputPacket>)>,
    )
        requires
            old(self).wf(),
        ensures
            final(self).wf(),
            final(self).finalized_flag(),
            final(self).pool_capacity() == old(self).pool_capacity(),
            old(self).finalized_flag() ==> *final(self) == *old(self),
    {
        if !self.finalized {
            self.executor.finalize(&mut self.pool, outputs);
            self.finalized = true;
        }
    }
}

/// The type-erased face a generic scheduler needs from any manager: its
/// address, its observed queue depth, and whether it is done.
pub trait ExecutionManagerTrait {
    /// Whether the stage is done (model).
    spec fn finished_view(&self) -> bool;

    /// The stage's address (model).
    spec fn weak_address_view(&self) -> WeakExecutorAddress;

    /// The queue depth observed by the last step (model).
    spec fn queue_len_view(&self) -> int;

    /// The stage's address.
    fn get_weak_address(&self) -> (r: &WeakExecutorAddress)
        ensures
            *r == self.weak_address_view(),
    ;

    /// The queue depth observed by the last step.
    fn get_packets_queue_size(&self) -> (r: usize)
        ensures
            r == self.queue_len_view(),
    ;

    /// Whether the stage is done.
    fn is_finished(&self) -> (r: bool)
        ensures
            r == self.finished_view(),
    ;
}

impl<E: Executor> ExecutionManagerTrait for ExecutionManager<E> {
    open spec fn finished_view(&self) -> bool {
        self.finished_flag() || self.executor_finished()
    }

    open spec fn weak_address_view(&self) -> WeakExecutorAddress {
        self.weak_address_spec()
    }

    open spec fn queue_len_view(&self) -> int {
        self.queue_size_spec()
    }

    fn get_weak_address(&self) -> (r: &WeakExecutorAddress) {
        &self.weak_address
    }

    fn get_packets_queue_size(&self) -> (r: usize) {
        self.queue_size
    }

    fn is_finished(&self) -> (r: bool) {
        self.is_finished || self.executor.is_finished()
    }
}

/// A minimal diagnostic stage: counts the packets it is given and finishes
/// only when told to at build time. When given a forwarding address it
/// emits one output packet per input — and hands the input back untouched
/// when the strict output allocation finds the pool exhausted. Useful as a
/// probe in scheduler tests and as the simplest model of the executor
/// capability.
pub struct PacketCounter {
    /// How many input packets this stage has processed (saturating).
    pub processed: u64,
    /// Whether the stage reports finished.
    pub done: bool,
    /// Where to route one output packet per input, if anywhere.
    pub forward_to: Option<ExecutorAddress>,
}

impl Executor for PacketCounter {
    type InputPacket = Vec<u8>;

    type OutputPacket = Vec<u8>;

    type BuildParams = bool;

    open spec fn finished(&self) -> bool {
        self.done
    }

    /// Setup: the build parameter says whether the stage is already done.
    fn pre_execute(
        &mut self,
        build_info: bool,
        pool: &mut PacketsPool<Vec<u8>>,
        outputs: &mut Vec<(ExecutorAddress, Packet<Vec<u8>>)>,
    )
        ensures
            final(self).done == build_info,
            final(self).processed == old(self).processed,
            final(self).forward_to == old(self).forward_to,
    {
        self.done = build_info;
    }

    fn execute(
        &mut self,
        packet: Packet<Vec<u8>>,
        pool: &mut PacketsPool<Vec<u8>>,
        outputs: &mut Vec<(ExecutorAddress, Packet<Vec<u8>>)>,
    ) -> (r: Option<Packet<Vec<u8>>>)
        ensures
            final(self).done == old(self).done,
            final(self).forward_to == old(self).forward_to,
            r is Some ==> final(self).processed == old(self).processed,
            r is None ==> final(self).processed == (if old(self).processed < u64::MAX {
                old(self).processed + 1
            } else {
                old(self).processed as int
            }),
    {
        match self.forward_to {
            Some(target) => {
                match pool.alloc_packet() {
                    Some(out) => {
                        outputs.push((target, out));
                    },
                    None => {
                        return Some(packet);
                    },
                }
            },
            None => {},
        }
        if self.processed < u64::MAX {
            self.processed = self.processed + 1;
        }
        None
    }

    fn is_finished(&self) -> (r: bool) {
        self.done
    }

    fn finalize(
        &mut self,
        pool: &mut PacketsPool<Vec<u8>>,
        outputs: &mut Vec<(ExecutorAddress, Packet<Vec<u8>>)>,
    ) {
    }
}

} // verus!
