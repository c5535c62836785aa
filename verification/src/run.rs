//! Setting up a run.
use crate::arith::lemma_ceil_div_monotone;
use crate::consumer::{Consumer, ConsumerState};
use crate::launch::launch;
use crate::layout::{
    can_divide, last_producer_chunk_size, last_task_size, lemma_regions, producer_chunk_size,
    task_size, Layout,
};
use crate::message::{Message, MessageView};
use crate::producer::{Producer, ProducerState};
use crate::system::{Params, System};
use vstd::prelude::*;

verus! {

/// Makes the producers of a layout, each before its first chunk.
pub fn build_producers(layout: &Layout) -> (r: Vec<Producer>)
    requires
        layout.wf(),
        layout.num_producers <= usize::MAX,
        layout.chunks_per_producer * (layout.num_producers - 1) <= u64::MAX,
    ensures
        r@.len() == layout.num_producers,
        forall|i: int|
            0 <= i < layout.num_producers ==> (#[trigger] r@[i]).wf() && r@[i]@
                == ProducerState::start(
                layout.total_size as int,
                layout.num_producers as int,
                layout.chunks_per_producer as int,
                i,
            ),
{
    let mut producers: Vec<Producer> = Vec::new();
    let mut i: u64 = 0;
    while i < layout.num_producers
        invariant
            layout.wf(),
            layout.num_producers <= usize::MAX,
            i <= layout.num_producers,
            producers@.len() == i,
            layout.chunks_per_producer * (layout.num_producers - 1) <= u64::MAX,
            forall|a: int|
                0 <= a < i ==> (#[trigger] producers@[a]).wf() && producers@[a]@
                    == ProducerState::start(
                    layout.total_size as int,
                    layout.num_producers as int,
                    layout.chunks_per_producer as int,
                    a,
                ),
        decreases layout.num_producers - i,
    {
        assert(layout.chunks_per_producer * i <= layout.chunks_per_producer * (layout.num_producers
            - 1)) by (nonlinear_arith)
            requires
                i < layout.num_producers,
        ;
        producers.push(Producer::new(layout, i));
        i = i + 1;
    }
    producers
}

/// Makes consumers that have received nothing yet.
pub fn build_consumers<R>(num_consumers: u64) -> (r: Vec<Consumer<R>>)
    ensures
        r@.len() == num_consumers,
        forall|c: int|
            0 <= c < num_consumers ==> (#[trigger] r@[c])@ == ConsumerState::<R>::start(),
{
    let mut consumers: Vec<Consumer<R>> = Vec::new();
    let mut c: u64 = 0;
    while c < num_consumers
        invariant
            c <= num_consumers,
            consumers@.len() == c,
            forall|a: int|
                0 <= a < c ==> (#[trigger] consumers@[a])@ == ConsumerState::<R>::start(),
        decreases num_consumers - c,
    {
        consumers.push(Consumer::new());
        c = c + 1;
    }
    consumers
}

/// A file of `total_size` bytes can be read with these counts: it can be divided, each region
/// has a last chunk, and what is numbered or reserved stays in the range of machine integers.
/// Without buffers no chunk is numbered past the start of the last region, and nothing is
/// reserved.
pub open spec fn can_read(
    total_size: int,
    num_producers: int,
    num_consumers: int,
    chunks_per_producer: int,
    num_tasks_per_producer: int,
) -> bool {
    &&& can_divide(total_size, num_producers, chunks_per_producer)
    &&& last_task_size(producer_chunk_size(total_size, num_producers), chunks_per_producer) >= 0
    &&& last_task_size(last_producer_chunk_size(total_size, num_producers), chunks_per_producer)
        >= 0
    &&& chunks_per_producer * (num_producers - 1) <= u64::MAX
    &&& num_tasks_per_producer > 0 ==> {
        &&& chunks_per_producer * num_producers <= u64::MAX
        &&& task_size(producer_chunk_size(total_size, num_producers), chunks_per_producer)
            <= isize::MAX
    }
    &&& num_producers <= usize::MAX
    &&& num_consumers <= usize::MAX
}

/// Everything that a run starts with: for each producer its state and the messages that wait
/// for it, and the consumers.
pub struct Run<R> {
    pub layout: Layout,
    pub reserved_size: u64,
    pub producers: Vec<Producer>,
    pub consumers: Vec<Consumer<R>>,
    pub queues: Vec<Vec<Message>>,
}

impl<R> Run<R> {
    /// The run is in the state `s`, with nothing sent to consumers yet.
    pub open spec fn is_at(self, s: System) -> bool {
        &&& self.producers@.len() == s.producers.len()
        &&& self.queues@.len() == s.producers.len()
        &&& self.consumers@.len() == s.consumers.len()
        &&& forall|i: int|
            0 <= i < s.producers.len() ==> {
                &&& (#[trigger] self.producers@[i])@ == s.producers[i].state
                &&& self.producers@[i].wf()
            }
        &&& forall|i: int|
            0 <= i < s.producers.len() ==> (#[trigger] self.queues@[i])@.len()
                == s.producers[i].queue.len()
        &&& forall|i: int, b: int|
            0 <= i < s.producers.len() && 0 <= b < s.producers[i].queue.len() ==> (
            #[trigger] self.queues@[i]@[b])@ == s.producers[i].queue[b]
        &&& forall|c: int|
            0 <= c < s.consumers.len() ==> {
                &&& (#[trigger] self.consumers@[c])@ == ConsumerState::<R>::start()
                &&& s.consumers[c].sent() == Seq::<MessageView>::empty()
            }
    }

    /// Tells whether a file can be read with these counts.
    pub fn can_read(
        total_size: u64,
        num_producers: u64,
        num_consumers: u64,
        chunks_per_producer: u64,
        num_tasks_per_producer: u64,
    ) -> (r: bool)
        ensures
            r == can_read(
                total_size as int,
                num_producers as int,
                num_consumers as int,
                chunks_per_producer as int,
                num_tasks_per_producer as int,
            ),
    {
        if !Layout::can_divide(total_size, num_producers, chunks_per_producer) {
            return false;
        }
        let layout = Layout::new(total_size, num_producers, chunks_per_producer);
        layout.has_last_tasks() && chunks_per_producer.checked_mul(num_producers - 1).is_some() && (
        num_tasks_per_producer == 0 || chunks_per_producer.checked_mul(num_producers).is_some()
            && layout.task_chunk_size <= isize::MAX as u64) && num_producers <= usize::MAX as u64
            && num_consumers <= usize::MAX as u64
    }

    /// Divides a file of `total_size` bytes, makes the producers and the consumers, and the
    /// messages that start them.
    pub fn prepare(
        total_size: u64,
        num_producers: u64,
        num_consumers: u64,
        chunks_per_producer: u64,
        num_tasks_per_producer: u64,
    ) -> (r: Run<R>)
        requires
            can_read(
                total_size as int,
                num_producers as int,
                num_consumers as int,
                chunks_per_producer as int,
                num_tasks_per_producer as int,
            ),
        ensures
            r.layout.wf(),
            r.layout.last_tasks_fit(),
            r.layout.total_size == total_size,
            r.layout.num_producers == num_producers,
            r.layout.chunks_per_producer == chunks_per_producer,
            r.reserved_size == r.layout.task_chunk_size,
            forall|params: Params|
                {
                    &&& params.file.len() == total_size
                    &&& params.num_producers == num_producers
                    &&& params.num_consumers == num_consumers
                    &&& params.chunks_per_producer == chunks_per_producer
                    &&& params.num_tasks_per_producer == num_tasks_per_producer
                } ==> {
                    &&& r.is_at(#[trigger] System::start(params))
                    &&& num_consumers > 0 && chunks_per_producer * num_producers <= u64::MAX
                        ==> params.wf()
                },
    {
        let layout = Layout::new(total_size, num_producers, chunks_per_producer);
        proof {
            lemma_regions(total_size as int, num_producers as int);
            lemma_ceil_div_monotone(
                layout.last_producer_chunk_size as int,
                layout.producer_chunk_size as int,
                chunks_per_producer as int,
            );
        }
        let producers = build_producers(&layout);
        let consumers = build_consumers(num_consumers);
        let reserved_size: u64 = layout.reserved_size();
        let queues = launch(
            producers.len(),
            consumers.len(),
            layout.task_chunk_size,
            layout.last_prod_task_chunk_size,
            chunks_per_producer,
            reserved_size as usize,
            num_tasks_per_producer,
        );
        let r = Run { layout, reserved_size, producers, consumers, queues };
        proof {
            assert forall|params: Params|
                {
                    &&& params.file.len() == total_size
                    &&& params.num_producers == num_producers
                    &&& params.num_consumers == num_consumers
                    &&& params.chunks_per_producer == chunks_per_producer
                    &&& params.num_tasks_per_producer == num_tasks_per_producer
                } implies {
                &&& r.is_at(#[trigger] System::start(params))
                &&& num_consumers > 0 && chunks_per_producer * num_producers <= u64::MAX
                        ==> params.wf()
            } by {
                let s = System::start(params);
                assert forall|c: int| 0 <= c < s.consumers.len() implies {
                    &&& (#[trigger] r.consumers@[c])@ == ConsumerState::<R>::start()
                    &&& s.consumers[c].sent() == Seq::<MessageView>::empty()
                } by {
                    assert(s.consumers[c].sent() =~= Seq::<MessageView>::empty());
                }
            }
        }
        r
    }
}

} // verus!
