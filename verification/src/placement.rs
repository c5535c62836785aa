//! Where the chunks of a run lie in the file, and where they go.
use crate::arith::lemma_ceil_div_unique;
use crate::laws::{law_chunks_make_the_file, reads_are_exact};
use crate::layout::lemma_regions;
use crate::message::{Config, Message, MessageView};
use crate::operations::law_producer_receives;
use crate::producer::{lemma_start, Producer, ProducerStep, ReadTask};
use crate::streams::lemma_sources;
use crate::system::{Params, Step, System};
use crate::upkeep::{
    chunk_len, chunk_start, consistent, lemma_next_target, lemma_run_consistent,
    message_ok, producer_ok,
};
use vstd::prelude::*;

verus! {

/// `q` is the size of the regions but the last, `size` that of region `i`, and `t` that of its
/// full chunks.
pub open spec fn divides(params: Params, i: int, q: int, size: int, t: int) -> bool {
    let n = params.num_producers;
    let m = params.chunks_per_producer;
    &&& (q - 1) * n < params.file.len() <= q * n
    &&& i + 1 < n ==> size == q
    &&& i + 1 == n ==> size == params.file.len() - (n - 1) * q
    &&& (t - 1) * m < size <= t * m
}

/// What a producer starts with, in terms of the sizes.
pub proof fn lemma_sizes(params: Params, i: int, q: int, size: int, t: int)
    requires
        params.wf(),
        0 <= i < params.num_producers,
        divides(params, i, q, size, t),
    ensures
        params.start(i).offset == q * i,
        params.start(i).end_offset == q * i + size,
        params.start(i).task_chunk_size == t,
        0 <= q * i <= q * i + size <= params.file.len(),
{
    let total = params.file.len() as int;
    let n = params.num_producers;
    lemma_regions(total, n);
    lemma_ceil_div_unique(total, n, q);
    lemma_ceil_div_unique(size, params.chunks_per_producer, t);
    lemma_start(total, n, params.chunks_per_producer, i);
}

/// At any time in a run, a producer that has sent `k` chunks, and gets a buffer, reads from the
/// place that lies `k` full chunks into its region; a full chunk, or what is left of the region
/// if that is less, and never past the end of the file. The chunk goes to the consumer that lies
/// `k + 1` places after the producer's own number, around the circle.
pub proof fn law_read_place(
    params: Params,
    steps: Seq<Step>,
    i: int,
    q: int,
    size: int,
    t: int,
    p: &mut Producer,
    cfg: Config,
    buffer: Vec<u8>,
    capacity: usize,
    r: ProducerStep,
)
    requires
        params.wf(),
        System::start(params).can_all(steps),
        0 <= i < params.num_producers,
        divides(params, i, q, size, t),
        old(p).wf(),
        old(p)@ == System::start(params).after_all(steps).producers[i].state,
        !old(p)@.done,
        cfg.num_consumers == params.num_consumers,
        call_ensures(
            Producer::receive,
            (p, Some(Message::Produce(cfg, buffer)), capacity),
            r,
        ),
    ensures
        r matches ProducerStep::Read(task) && {
            let k = System::start(params).after_all(steps).producers[i].loads.len();
            &&& task.offset == q * i + k * t
            &&& (k + 1) * t <= size ==> task.buffer@.len() == t
            &&& (k + 1) * t >= size ==> task.buffer@.len() == size - k * t
            &&& task.offset + task.buffer@.len() <= q * i + size <= params.file.len()
            &&& task.consumer == (i + 1 + k) % params.num_consumers
        },
{
    let s = System::start(params).after_all(steps);
    let k = s.producers[i].loads.len() as int;
    lemma_run_consistent(params, steps);
    assert(producer_ok(params, s.producers[i], i));
    lemma_sizes(params, i, q, size, t);
    law_producer_receives(p, cfg, buffer, capacity, r);
    assert((k + 1) * t == k * t + t) by (nonlinear_arith);
    if k > 0 {
        lemma_next_target(params, i, k);
    }
}

/// `data` is what the file holds from the offset of the task on, as much as the task's buffer
/// takes.
pub open spec fn is_read(file: Seq<u8>, task: ReadTask, data: Seq<u8>) -> bool {
    &&& data.len() == task.buffer@.len()
    &&& task.offset + data.len() <= file.len()
    &&& data == file.subrange(task.offset as int, task.offset + data.len())
}

/// If the step delivers a chunk, the chunk was read from the file as the producer's task for it
/// says.
pub open spec fn step_reads_the_file(file: Seq<u8>, s: System, step: Step) -> bool {
    match step {
        Step::Deliver(i, data) => s.producers[i].queue[0] matches MessageView::Produce(
            cfg,
            bytes,
        ) && exists|task: ReadTask|
            #[trigger] s.producers[i].state.reads(cfg, bytes, task) && is_read(file, task, data),
        _ => true,
    }
}

/// Every chunk that the steps deliver was read from the file as the producer's task for it says.
pub open spec fn reads_the_file(params: Params, steps: Seq<Step>) -> bool
    decreases steps.len(),
{
    steps.len() == 0 || {
        &&& reads_the_file(params, steps.drop_last())
        &&& step_reads_the_file(
            params.file,
            System::start(params).after_all(steps.drop_last()),
            steps.last(),
        )
    }
}

/// Only its own deliveries add to what a producer has read.
proof fn lemma_loads(params: Params, s: System, step: Step, i: int)
    requires
        params.wf(),
        consistent(params, s),
        s.can(step),
        0 <= i < params.num_producers,
    ensures
        s.after(step).producers[i].loads == match step {
            Step::Deliver(j, data) if j == i => s.producers[i].loads.push(data),
            _ => s.producers[i].loads,
        },
{
    if let Step::Receive(c) = step {
        lemma_sources(params, s, c);
        assert(message_ok(params, s.consumers[c].queue[0]));
    }
}

/// When every chunk is read as the producer's task says, the chunks of a producer are the bytes
/// of the file at their places.
pub proof fn law_reads_are_exact(params: Params, steps: Seq<Step>)
    requires
        params.wf(),
        System::start(params).can_all(steps),
        reads_the_file(params, steps),
    ensures
        reads_are_exact(params, System::start(params).after_all(steps)),
    decreases steps.len(),
{
    let s = System::start(params).after_all(steps);
    if steps.len() > 0 {
        let before = System::start(params).after_all(steps.drop_last());
        law_reads_are_exact(params, steps.drop_last());
        lemma_run_consistent(params, steps.drop_last());
        assert forall|i: int, k: int|
            0 <= i < params.num_producers && 0 <= k < s.producers[i].loads.len() implies (
        #[trigger] s.producers[i].loads[k]) == params.file.subrange(
            chunk_start(params, i, k),
            chunk_start(params, i, k) + chunk_len(params, i, k),
        ) by {
            assert(producer_ok(params, before.producers[i], i));
            lemma_loads(params, before, steps.last(), i);
            if k < before.producers[i].loads.len() {
                assert(s.producers[i].loads[k] == before.producers[i].loads[k]);
            } else {
                assert(steps.last() is Deliver && steps.last()->Deliver_0 == i);
                assert(k == before.producers[i].loads.len());
            }
        }
    }
}

/// In a run with buffers, when every chunk is read as the producer's task says, and every
/// consumer has exited, the chunks of the producers, put together in the order of their numbers,
/// are the file.
pub proof fn law_run_reads_the_file(params: Params, steps: Seq<Step>)
    requires
        params.wf(),
        params.num_tasks_per_producer > 0,
        System::start(params).can_all(steps),
        System::start(params).after_all(steps).finished(),
        reads_the_file(params, steps),
    ensures
        ({
            let s = System::start(params).after_all(steps);
            Seq::new(
                params.num_producers as nat,
                |i: int| s.producers[i].loads.flatten(),
            ).flatten() == params.file
        }),
{
    law_reads_are_exact(params, steps);
    law_chunks_make_the_file(params, steps);
}

} // verus!
