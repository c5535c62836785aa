//! The buffers that start a run.
use crate::arith::min;
use crate::message::{Buffer, Config, Message, MessageView};
use vstd::prelude::*;

verus! {

/// The number of buffers that each producer gets: as many as it may have in use, but no more
/// than it has chunks.
pub open spec fn buffers_per_producer(
    chunks_per_producer: int,
    num_tasks_per_producer: int,
) -> int {
    min(chunks_per_producer, num_tasks_per_producer)
}

/// A buffer for producer `i`, before it has been used. Its chunk number is overwritten when it
/// is filled.
pub open spec fn launch_message(
    num_producers: int,
    num_consumers: usize,
    chunks_per_producer: int,
    size: int,
    i: int,
) -> MessageView {
    MessageView::Produce(
        Config {
            chunk_id: 0,
            num_chunks: (chunks_per_producer * num_producers) as u64,
            producer_id: i as u64,
            num_consumers,
        },
        Seq::new(size as nat, |j: int| 0u8),
    )
}

/// Makes the messages that start a run: for each producer the buffers that it may have in use.
/// In order to keep memory usage constant, buffers are sent to consumers and returned to the
/// producer who sent them. To allow for asynchronous consumption, a consumer needs to be able
/// to consume the data in one buffer while the producer is filling a different buffer, and
/// therefore more than one buffer per producer is required for the two to overlap.
///
/// Each buffer is given room for `reserved_size` bytes, so that it holds every chunk of its
/// producer without growing. The contract speaks of the lengths of the buffers only; how much
/// room a vector has is not part of its contents.
pub fn launch(
    num_producers: usize,
    num_consumers: usize,
    task_chunk_size: u64,
    last_producer_task_chunk_size: u64,
    chunks_per_producer: u64,
    reserved_size: usize,
    num_tasks_per_producer: u64,
) -> (r: Vec<Vec<Message>>)
    requires
        num_producers > 0 && chunks_per_producer > 0 && num_tasks_per_producer > 0 ==> {
            &&& chunks_per_producer * num_producers <= u64::MAX
            &&& reserved_size <= isize::MAX
            &&& last_producer_task_chunk_size <= reserved_size
            &&& num_producers > 1 ==> task_chunk_size <= reserved_size
        },
    ensures
        r@.len() == num_producers,
        forall|i: int|
            0 <= i < num_producers ==> (#[trigger] r@[i])@.len() == buffers_per_producer(
                chunks_per_producer as int,
                num_tasks_per_producer as int,
            ),
        forall|i: int|
            0 <= i < num_producers && num_tasks_per_producer <= chunks_per_producer ==> (
            #[trigger] r@[i])@.len() == num_tasks_per_producer,
        forall|i: int|
            0 <= i < num_producers && num_tasks_per_producer > chunks_per_producer ==> (
            #[trigger] r@[i])@.len() == chunks_per_producer,
        forall|i: int, k: int|
            0 <= i < num_producers && 0 <= k < r@[i]@.len() ==> (#[trigger] r@[i]@[k])@
                == launch_message(
                num_producers as int,
                num_consumers,
                chunks_per_producer as int,
                if i != num_producers - 1 {
                    task_chunk_size as int
                } else {
                    last_producer_task_chunk_size as int
                },
                i,
            ),
{
    let num_buffers: u64 = if chunks_per_producer <= num_tasks_per_producer {
        chunks_per_producer
    } else {
        num_tasks_per_producer
    };
    let mut queues: Vec<Vec<Message>> = Vec::new();
    let mut i: usize = 0;
    while i < num_producers
        invariant
            i <= num_producers,
            queues@.len() == i,
            num_buffers == buffers_per_producer(
                chunks_per_producer as int,
                num_tasks_per_producer as int,
            ),
            num_producers > 0 && num_buffers > 0 ==> {
                &&& chunks_per_producer * num_producers <= u64::MAX
                &&& reserved_size <= isize::MAX
                &&& last_producer_task_chunk_size <= reserved_size
                &&& num_producers > 1 ==> task_chunk_size <= reserved_size
            },
            forall|a: int| 0 <= a < i ==> (#[trigger] queues@[a])@.len() == num_buffers,
            forall|a: int, k: int|
                0 <= a < i && 0 <= k < num_buffers ==> (#[trigger] queues@[a]@[k])@
                    == launch_message(
                    num_producers as int,
                    num_consumers,
                    chunks_per_producer as int,
                    if a != num_producers - 1 {
                        task_chunk_size as int
                    } else {
                        last_producer_task_chunk_size as int
                    },
                    a,
                ),
        decreases num_producers - i,
    {
        let chunk_size: u64 = if i != num_producers - 1 {
            task_chunk_size
        } else {
            last_producer_task_chunk_size
        };
        let mut queue: Vec<Message> = Vec::new();
        let mut k: u64 = 0;
        while k < num_buffers
            invariant
                i < num_producers,
                k <= num_buffers,
                queue@.len() == k,
                num_buffers > 0 ==> {
                    &&& chunks_per_producer * num_producers <= u64::MAX
                    &&& chunk_size <= reserved_size <= isize::MAX
                },
                forall|b: int|
                    0 <= b < k ==> (#[trigger] queue@[b])@ == launch_message(
                        num_producers as int,
                        num_consumers,
                        chunks_per_producer as int,
                        chunk_size as int,
                        i as int,
                    ),
            decreases num_buffers - k,
        {
            let mut buffer: Buffer = Vec::new();
            buffer.reserve(reserved_size);
            buffer.resize(chunk_size as usize, 0);
            assert(buffer@ =~= Seq::new(chunk_size as nat, |j: int| 0u8));
            let cfg = Config {
                chunk_id: 0,
                num_chunks: chunks_per_producer * num_producers as u64,
                producer_id: i as u64,
                num_consumers,
            };
            queue.push(Message::Produce(cfg, buffer));
            k = k + 1;
        }
        queues.push(queue);
        i = i + 1;
    }
    queues
}

} // verus!
