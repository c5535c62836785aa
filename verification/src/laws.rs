//! What holds of every run.
use crate::arith::lemma_ceil_div_monotone;
use crate::consumer::{can_give, takes_in, ConsumerState, FnMove};
use crate::layout::{lemma_regions, producer_chunk_size, region_size, region_start, task_size};
use crate::message::{Config, MessageView};
use crate::producer::{lemma_start, next_consumer};
use crate::streams::{lemma_ended, lemma_sources};
use crate::sum::{lemma_sum_bounded, lemma_sum_const, lemma_sum_same, sum};
use crate::system::{bytes_of, ends_of, from_producer, source, Params, Step, System};
use crate::upkeep::{
    buffer_ok, chunk_len, chunk_start, chunks_for, circulating, consistent, lemma_mod_range,
    lemma_next_target, lemma_run_consistent, message_ok, producer_ok, sent_by,
};
use vstd::prelude::*;

verus! {

/// The regions of the producers follow each other from the start of the file to its end.
pub proof fn law_regions_tile(total_size: int, num_producers: int)
    requires
        num_producers > 0,
    ensures
        region_start(total_size, num_producers, 0) == 0,
        forall|i: int|
            0 <= i < num_producers - 1 ==> #[trigger] region_start(total_size, num_producers, i)
                + region_size(total_size, num_producers, i) == region_start(
                total_size,
                num_producers,
                i + 1,
            ),
        region_start(total_size, num_producers, num_producers - 1) + region_size(
            total_size,
            num_producers,
            num_producers - 1,
        ) == total_size,
        sum(num_producers, |i: int| region_size(total_size, num_producers, i)) == total_size,
{
    let q = producer_chunk_size(total_size, num_producers);
    assert(q * 0 == 0) by (nonlinear_arith);
    assert forall|i: int| 0 <= i < num_producers - 1 implies #[trigger] region_start(
        total_size,
        num_producers,
        i,
    ) + region_size(total_size, num_producers, i) == region_start(
        total_size,
        num_producers,
        i + 1,
    ) by {
        assert(q * i + q == q * (i + 1)) by (nonlinear_arith);
    }
    assert(q * (num_producers - 1) == (num_producers - 1) * q) by (nonlinear_arith);
    let f = |i: int| region_size(total_size, num_producers, i);
    lemma_sum_const(num_producers - 1, f, q);
}

/// All chunks of a run have different numbers, from 1 to the number of chunks that messages
/// announce.
pub proof fn law_chunk_numbers_differ(
    chunks_per_producer: int,
    num_producers: int,
    i: int,
    k: int,
    j: int,
    l: int,
)
    requires
        0 <= i < num_producers,
        0 <= j < num_producers,
        0 <= k < chunks_per_producer,
        0 <= l < chunks_per_producer,
    ensures
        1 <= chunks_per_producer * i + k + 1 <= chunks_per_producer * num_producers,
        chunks_per_producer * i + k + 1 == chunks_per_producer * j + l + 1 ==> i == j && k == l,
{
    let m = chunks_per_producer;
    assert(0 <= m * i && m * i + m <= m * num_producers) by (nonlinear_arith)
        requires
            0 <= i < num_producers,
            m > 0,
    ;
    if i < j {
        assert(m * i + m <= m * j) by (nonlinear_arith)
            requires
                i < j,
                m > 0,
        ;
    } else if j < i {
        assert(m * j + m <= m * i) by (nonlinear_arith)
            requires
                j < i,
                m > 0,
        ;
    }
}

/// A producer sends consecutive chunks to consecutive consumers, around the circle.
pub proof fn law_consumers_take_turns(params: Params, i: int, k: int)
    requires
        params.wf(),
        i >= 0,
        k >= 0,
    ensures
        0 <= params.target(i, k) < params.num_consumers,
        params.target(i, 0) == next_consumer(i, params.num_consumers),
        params.target(i, k + 1) == next_consumer(params.target(i, k), params.num_consumers),
{
    lemma_mod_range(i + 1 + k, params.num_consumers);
    lemma_next_target(params, i, k + 1);
}

/// In a run with buffers, consumers exit because they have all their end signals.
proof fn lemma_finished(params: Params, s: System)
    requires
        params.wf(),
        params.num_tasks_per_producer > 0,
        consistent(params, s),
        s.finished(),
    ensures
        forall|c: int| 0 <= c < params.num_consumers ==> (#[trigger] s.consumers[c]).ended(),
{
    assert forall|c: int| 0 <= c < params.num_consumers implies (
    #[trigger] s.consumers[c]).ended() by {
        assert(s.consumers[c].exited());
        assert(!s.consumers[c].stopped);
    }
}

/// In a run with buffers, when every consumer has exited, the consumers have received as many
/// bytes as the file has.
pub proof fn law_all_bytes_consumed(params: Params, steps: Seq<Step>)
    requires
        params.wf(),
        params.num_tasks_per_producer > 0,
        System::start(params).can_all(steps),
        System::start(params).after_all(steps).finished(),
    ensures
        ({
            let s = System::start(params).after_all(steps);
            sum(params.num_consumers, |c: int| bytes_of(s.consumers[c].log)) == params.file.len()
        }),
{
    let s = System::start(params).after_all(steps);
    let total = params.file.len() as int;
    let n = params.num_producers;
    lemma_run_consistent(params, steps);
    lemma_finished(params, s);
    assert forall|c: int| 0 <= c < params.num_consumers implies (
    #[trigger] s.consumers[c]).sent() == s.consumers[c].log by {
        lemma_ended(params, s, c);
    }
    lemma_sum_same(
        params.num_consumers,
        |c: int| bytes_of(s.consumers[c].sent()),
        |c: int| bytes_of(s.consumers[c].log),
    );
    assert(s.consumers[0].ended());
    lemma_ended(params, s, 0);
    assert forall|i: int| 0 <= i < n implies (#[trigger] s.producers[i]).loads.flatten().len()
        == region_size(total, n, i) by {
        assert(producer_ok(params, s.producers[i], i));
    }
    lemma_sum_same(
        n,
        |i: int| s.producers[i].loads.flatten().len() as int,
        |i: int| region_size(total, n, i),
    );
    law_regions_tile(total, n);
}

/// In a run with buffers, when every consumer has exited, each has received from each producer
/// exactly its share of the chunks, every chunk once and in order, and then the end signal; and
/// nothing else.
pub proof fn law_chunks_delivered_once(params: Params, steps: Seq<Step>, i: int, c: int)
    requires
        params.wf(),
        params.num_tasks_per_producer > 0,
        System::start(params).can_all(steps),
        System::start(params).after_all(steps).finished(),
        0 <= i < params.num_producers,
        0 <= c < params.num_consumers,
    ensures
        ({
            let s = System::start(params).after_all(steps);
            let loads = s.producers[i].loads;
            &&& from_producer(s.consumers[c].log, i) == chunks_for(params, i, c, loads).push(
                params.end_message(i),
            )
            &&& loads.len() == params.start(i).chunks_left()
            &&& loads.len() <= params.chunks_per_producer
            &&& forall|k: int|
                0 <= k < loads.len() ==> (#[trigger] loads[k]).len() == chunk_len(params, i, k)
            &&& forall|j: int|
                0 <= j < s.consumers[c].log.len() ==> 0 <= source(#[trigger] s.consumers[c].log[j])
                    < params.num_producers
        }),
{
    let s = System::start(params).after_all(steps);
    lemma_run_consistent(params, steps);
    lemma_finished(params, s);
    assert(s.consumers[c].ended());
    lemma_ended(params, s, c);
    lemma_sources(params, s, c);
    assert(producer_ok(params, s.producers[i], i));
    assert(s.producers[i].ends_sent > c);
    assert(from_producer(s.consumers[c].sent(), i) == sent_by(params, s.producers[i], i, c));
    lemma_start(params.file.len() as int, params.num_producers, params.chunks_per_producer, i);
    assert forall|j: int| 0 <= j < s.consumers[c].log.len() implies 0 <= source(
        #[trigger] s.consumers[c].log[j],
    ) < params.num_producers by {
        assert(message_ok(params, s.consumers[c].log[j]));
    }
}

/// Every chunk that producer `i` has read goes to the consumer whose turn it is, and to no
/// other.
pub proof fn law_share_of_consumer(
    params: Params,
    i: int,
    c: int,
    loads: Seq<Seq<u8>>,
    k: int,
)
    requires
        0 <= k < loads.len(),
        0 <= i,
        params.chunks_per_producer * i + loads.len() <= u64::MAX,
        params.chunks_per_producer >= 0,
    ensures
        (exists|j: int|
            0 <= j < chunks_for(params, i, c, loads).len() && #[trigger] chunks_for(
                params,
                i,
                c,
                loads,
            )[j] == params.chunk_message(i, k, loads[k])) <==> params.target(i, k) == c,
{
    let all = chunks_for(params, i, c, loads);
    let m = params.chunk_message(i, k, loads[k]);
    lemma_share(params, i, c, loads);
    if params.target(i, k) == c {
        lemma_share_has(params, i, c, loads, k);
    } else {
        assert forall|j: int| 0 <= j < all.len() implies #[trigger] all[j] != m by {
            let l = choose|l: int|
                0 <= l < loads.len() && params.target(i, l) == c && all[j]
                    == #[trigger] params.chunk_message(i, l, loads[l]);
            assert(0 <= params.chunks_per_producer * i) by (nonlinear_arith)
                requires
                    i >= 0,
                    params.chunks_per_producer >= 0,
            ;
            assert(all[j]->Consume_0.chunk_id == params.chunks_per_producer * i + l + 1);
            assert(m->Consume_0.chunk_id == params.chunks_per_producer * i + k + 1);
        }
    }
}

/// What goes to a consumer are chunks that the producer has read, and whose turn it is.
pub proof fn lemma_share(params: Params, i: int, c: int, loads: Seq<Seq<u8>>)
    ensures
        forall|j: int|
            0 <= j < chunks_for(params, i, c, loads).len() ==> exists|l: int|
                0 <= l < loads.len() && params.target(i, l) == c && (#[trigger] chunks_for(
                    params,
                    i,
                    c,
                    loads,
                )[j]) == #[trigger] params.chunk_message(i, l, loads[l]),
    decreases loads.len(),
{
    if loads.len() > 0 {
        let init = loads.drop_last();
        lemma_share(params, i, c, init);
        let all = chunks_for(params, i, c, loads);
        let rest = chunks_for(params, i, c, init);
        assert forall|j: int| 0 <= j < all.len() implies exists|l: int|
            0 <= l < loads.len() && params.target(i, l) == c && (#[trigger] all[j])
                == #[trigger] params.chunk_message(i, l, loads[l]) by {
            if j < rest.len() {
                assert(all[j] == rest[j]);
                let l = choose|l: int|
                    0 <= l < init.len() && params.target(i, l) == c && rest[j]
                        == #[trigger] params.chunk_message(i, l, init[l]);
                assert(init[l] == loads[l]);
                assert(all[j] == params.chunk_message(i, l, loads[l]));
            } else {
                let l = loads.len() - 1;
                assert(all[j] == params.chunk_message(i, l, loads[l]));
            }
        }
    }
}

/// A chunk whose turn it is goes to the consumer.
pub proof fn lemma_share_has(params: Params, i: int, c: int, loads: Seq<Seq<u8>>, k: int)
    requires
        0 <= k < loads.len(),
        params.target(i, k) == c,
    ensures
        exists|j: int|
            0 <= j < chunks_for(params, i, c, loads).len() && #[trigger] chunks_for(
                params,
                i,
                c,
                loads,
            )[j] == params.chunk_message(i, k, loads[k]),
    decreases loads.len(),
{
    let init = loads.drop_last();
    let all = chunks_for(params, i, c, loads);
    let rest = chunks_for(params, i, c, init);
    if k == loads.len() - 1 {
        assert(all[all.len() - 1] == params.chunk_message(i, k, loads[k]));
    } else {
        lemma_share_has(params, i, c, init, k);
        let j = choose|j: int|
            0 <= j < rest.len() && #[trigger] rest[j] == params.chunk_message(i, k, init[k]);
        assert(all[j] == rest[j]);
        assert(init[k] == loads[k]);
    }
}

/// A producer has, on their way to it or from it, as many buffers as it was given, until it
/// exits; and never more.
pub proof fn law_buffers_circulate(params: Params, steps: Seq<Step>, i: int)
    requires
        params.wf(),
        System::start(params).can_all(steps),
        0 <= i < params.num_producers,
    ensures
        ({
            let s = System::start(params).after_all(steps);
            &&& circulating(s, i) <= params.buffers() <= params.num_tasks_per_producer
            &&& !s.producers[i].exited() ==> circulating(s, i) == params.buffers()
            &&& !s.producers[i].exited() && params.num_tasks_per_producer > 0 ==> circulating(s, i)
                > 0
        }),
{
    lemma_run_consistent(params, steps);
    let s = System::start(params).after_all(steps);
    assert(producer_ok(params, s.producers[i], i));
}

/// The number of buffers in a run is at most the number of producers times the buffers of each,
/// and just that until a producer exits.
pub proof fn law_memory_bounded(params: Params, steps: Seq<Step>)
    requires
        params.wf(),
        System::start(params).can_all(steps),
    ensures
        ({
            let s = System::start(params).after_all(steps);
            let all = sum(params.num_producers, |i: int| circulating(s, i));
            &&& all <= params.num_producers * params.buffers()
            &&& (forall|i: int|
                0 <= i < params.num_producers ==> !(#[trigger] s.producers[i]).exited()) ==> all
                == params.num_producers * params.buffers()
        }),
{
    let s = System::start(params).after_all(steps);
    let f = |i: int| circulating(s, i);
    assert forall|i: int| 0 <= i < params.num_producers implies #[trigger] f(i)
        <= params.buffers() by {
        law_buffers_circulate(params, steps, i);
    }
    lemma_sum_bounded(params.num_producers, f, params.buffers());
    if forall|i: int| 0 <= i < params.num_producers ==> !(#[trigger] s.producers[i]).exited() {
        assert forall|i: int| 0 <= i < params.num_producers implies #[trigger] f(i)
            == params.buffers() by {
            assert(!s.producers[i].exited());
            law_buffers_circulate(params, steps, i);
        }
        lemma_sum_const(params.num_producers, f, params.buffers());
    }
}

/// No chunk of a run is larger than the capacity that is reserved for its buffer, which is the
/// size of a full chunk of the first region.
pub proof fn law_chunks_fit_buffers(params: Params, steps: Seq<Step>, i: int)
    requires
        params.wf(),
        System::start(params).can_all(steps),
        0 <= i < params.num_producers,
    ensures
        ({
            let s = System::start(params).after_all(steps);
            0 <= s.producers[i].state.chunk_size() <= task_size(
                producer_chunk_size(params.file.len() as int, params.num_producers),
                params.chunks_per_producer,
            )
        }),
{
    let s = System::start(params).after_all(steps);
    let total = params.file.len() as int;
    let n = params.num_producers;
    lemma_run_consistent(params, steps);
    assert(producer_ok(params, s.producers[i], i));
    lemma_regions(total, n);
    lemma_ceil_div_monotone(
        region_size(total, n, i),
        producer_chunk_size(total, n),
        params.chunks_per_producer,
    );
}

/// A message to a consumer never finds it gone: neither a chunk nor an end signal is sent to a
/// consumer that has exited.
pub proof fn law_sends_arrive(params: Params, steps: Seq<Step>, i: int)
    requires
        params.wf(),
        System::start(params).can_all(steps),
        0 <= i < params.num_producers,
    ensures
        ({
            let s = System::start(params).after_all(steps);
            let node = s.producers[i];
            &&& forall|data: Seq<u8>, c: int|
                #![trigger s.can_deliver(i, data), s.consumers[c]]
                s.can_deliver(i, data) && 0 <= c < params.num_consumers
                    ==> !s.consumers[c].exited()
            &&& s.can_signal_end(i) ==> !s.consumers[node.ends_sent].exited()
        }),
{
    let s = System::start(params).after_all(steps);
    lemma_run_consistent(params, steps);
    assert(producer_ok(params, s.producers[i], i));
    assert forall|c: int| 0 <= c < params.num_consumers && (
    #[trigger] s.consumers[c]).exited() implies if params.buffers() == 0 {
        s.producers[i].queue.len() == 0 && !s.producers[i].state.done
    } else {
        s.producers[i].state.done && s.producers[i].ends_sent > c
    } by {
        if params.buffers() > 0 {
            assert(!s.consumers[c].stopped);
            lemma_ended(params, s, c);
            assert(s.producers[i].ends_sent > c);
        }
    }
}

/// Consumers only ever get chunks and end signals, and producers only their own buffers.
pub proof fn law_no_wrong_message(params: Params, steps: Seq<Step>)
    requires
        params.wf(),
        System::start(params).can_all(steps),
    ensures
        ({
            let s = System::start(params).after_all(steps);
            &&& forall|c: int, b: int|
                0 <= c < params.num_consumers && 0 <= b < s.consumers[c].queue.len() ==> !((
                #[trigger] s.consumers[c].queue[b]) is Produce)
            &&& forall|i: int, b: int|
                0 <= i < params.num_producers && 0 <= b < s.producers[i].queue.len() ==> {
                    &&& (#[trigger] s.producers[i].queue[b]) is Produce
                    &&& source(s.producers[i].queue[b]) == i
                }
        }),
{
    let s = System::start(params).after_all(steps);
    lemma_run_consistent(params, steps);
    assert forall|c: int, b: int|
        0 <= c < params.num_consumers && 0 <= b < s.consumers[c].queue.len() implies !((
    #[trigger] s.consumers[c].queue[b]) is Produce) by {
        lemma_sources(params, s, c);
        assert(message_ok(params, s.consumers[c].queue[b]));
    }
    assert forall|i: int, b: int|
        0 <= i < params.num_producers && 0 <= b < s.producers[i].queue.len() implies {
        &&& (#[trigger] s.producers[i].queue[b]) is Produce
        &&& source(s.producers[i].queue[b]) == i
    } by {
        assert(buffer_ok(params, s.producers[i].queue[b], i));
    }
}

/// The chunks that a producer has read are the bytes of the file at their places.
pub open spec fn reads_are_exact(params: Params, s: System) -> bool {
    forall|i: int, k: int|
        0 <= i < params.num_producers && 0 <= k < s.producers[i].loads.len() ==> (
        #[trigger] s.producers[i].loads[k]) == params.file.subrange(
            chunk_start(params, i, k),
            chunk_start(params, i, k) + chunk_len(params, i, k),
        )
}

/// In a run with buffers, when every consumer has exited, and each read gave the bytes of the
/// file at its place, the chunks of the producers, put together in the order of their numbers,
/// are the file.
pub proof fn law_chunks_make_the_file(params: Params, steps: Seq<Step>)
    requires
        params.wf(),
        params.num_tasks_per_producer > 0,
        System::start(params).can_all(steps),
        System::start(params).after_all(steps).finished(),
        reads_are_exact(params, System::start(params).after_all(steps)),
    ensures
        ({
            let s = System::start(params).after_all(steps);
            Seq::new(
                params.num_producers as nat,
                |i: int| s.producers[i].loads.flatten(),
            ).flatten() == params.file
        }),
{
    let s = System::start(params).after_all(steps);
    let n = params.num_producers;
    let total = params.file.len() as int;
    let parts = Seq::new(n as nat, |i: int| s.producers[i].loads.flatten());
    lemma_run_consistent(params, steps);
    lemma_finished(params, s);
    assert(s.consumers[0].ended());
    lemma_ended(params, s, 0);
    law_regions_tile(total, n);
    lemma_regions(total, n);
    assert forall|i: int| 0 <= i < n implies #[trigger] parts[i] == params.file.subrange(
        region_start(total, n, i),
        region_start(total, n, i) + region_size(total, n, i),
    ) by {
        assert(producer_ok(params, s.producers[i], i));
        lemma_start(total, n, params.chunks_per_producer, i);
        let loads = s.producers[i].loads;
        assert forall|k: int| 0 <= k < loads.len() implies (#[trigger] loads[k])
            == params.file.subrange(
            chunk_start(params, i, k),
            chunk_start(params, i, k) + chunk_len(params, i, k),
        ) by {
            assert(s.producers[i].loads[k] == loads[k]);
        }
        lemma_loads_make_region(params, i, loads);
    }
    lemma_parts(params.file, parts, n);
}

/// Chunks that follow each other make up the part of the file that they cover.
proof fn lemma_loads_make_region(params: Params, i: int, loads: Seq<Seq<u8>>)
    requires
        params.wf(),
        0 <= i < params.num_producers,
        forall|k: int|
            0 <= k < loads.len() ==> (#[trigger] loads[k]) == params.file.subrange(
                chunk_start(params, i, k),
                chunk_start(params, i, k) + chunk_len(params, i, k),
            ),
        forall|k: int|
            0 <= k < loads.len() ==> (#[trigger] loads[k]).len() == chunk_len(params, i, k),
    ensures
        loads.flatten() == params.file.subrange(
            params.start(i).offset,
            params.start(i).offset + loads.flatten().len(),
        ),
        loads.len() > 0 ==> params.start(i).offset + loads.flatten().len() == chunk_start(
            params,
            i,
            loads.len() - 1,
        ) + chunk_len(params, i, loads.len() - 1),
        params.start(i).offset + loads.flatten().len() <= params.start(i).end_offset,
    decreases loads.len(),
{
    let start = params.start(i);
    let t = start.task_chunk_size;
    lemma_start(params.file.len() as int, params.num_producers, params.chunks_per_producer, i);
    if loads.len() == 0 {
        assert(loads.flatten() =~= params.file.subrange(start.offset, start.offset));
    } else {
        let init = loads.drop_last();
        let k = loads.len() - 1;
        assert forall|j: int| 0 <= j < init.len() implies (#[trigger] init[j])
            == params.file.subrange(
            chunk_start(params, i, j),
            chunk_start(params, i, j) + chunk_len(params, i, j),
        ) && init[j].len() == chunk_len(params, i, j) by {
            assert(init[j] == loads[j]);
        }
        lemma_loads_make_region(params, i, init);
        assert(loads =~= init.push(loads.last()));
        init.lemma_flatten_push(loads.last());
        assert(loads[k].len() == chunk_len(params, i, k));
        assert(k * t == (k - 1) * t + t) by (nonlinear_arith);
        assert(0 * t == 0) by (nonlinear_arith);
        assert(start.offset + init.flatten().len() == chunk_start(params, i, k));
        assert(loads.flatten() =~= params.file.subrange(
            start.offset,
            start.offset + loads.flatten().len(),
        ));
    }
}

/// Parts that follow each other from the start of the file make up what they cover.
proof fn lemma_parts(file: Seq<u8>, parts: Seq<Seq<u8>>, n: int)
    requires
        0 < n,
        parts.len() == n,
        crate::layout::last_producer_chunk_size(file.len() as int, n) >= 0,
        forall|i: int|
            0 <= i < n ==> #[trigger] parts[i] == file.subrange(
                region_start(file.len() as int, n, i),
                region_start(file.len() as int, n, i) + region_size(file.len() as int, n, i),
            ),
    ensures
        parts.flatten() == file,
{
    lemma_first_parts(file, parts, n, n);
    assert(parts.take(n) =~= parts);
    law_regions_tile(file.len() as int, n);
    assert(file.subrange(0, file.len() as int) =~= file);
}

/// The end of region `m - 1`.
spec fn covered(total_size: int, n: int, m: int) -> int {
    if m == 0 {
        0
    } else {
        region_start(total_size, n, m - 1) + region_size(total_size, n, m - 1)
    }
}

proof fn lemma_first_parts(file: Seq<u8>, parts: Seq<Seq<u8>>, n: int, m: int)
    requires
        0 <= m <= n,
        0 < n,
        parts.len() == n,
        crate::layout::last_producer_chunk_size(file.len() as int, n) >= 0,
        forall|i: int|
            0 <= i < n ==> #[trigger] parts[i] == file.subrange(
                region_start(file.len() as int, n, i),
                region_start(file.len() as int, n, i) + region_size(file.len() as int, n, i),
            ),
    ensures
        0 <= covered(file.len() as int, n, m) <= file.len(),
        parts.take(m).flatten() == file.subrange(0, covered(file.len() as int, n, m)),
    decreases m,
{
    let total = file.len() as int;
    if m == 0 {
        assert(parts.take(0).flatten() =~= file.subrange(0, 0));
    } else {
        lemma_first_parts(file, parts, n, m - 1);
        law_regions_tile(total, n);
        lemma_start(total, n, 1, m - 1);
        if m >= 2 {
            assert(region_start(total, n, m - 2) + region_size(total, n, m - 2) == region_start(
                total,
                n,
                m - 1,
            ));
        }
        assert(covered(total, n, m - 1) == region_start(total, n, m - 1));
        assert(parts.take(m) =~= parts.take(m - 1).push(parts[m - 1]));
        parts.take(m - 1).lemma_flatten_push(parts[m - 1]);
        assert(parts.take(m).flatten() =~= file.subrange(0, covered(total, n, m)));
    }
}

/// The chunks among messages, in their order.
pub open spec fn chunks_of(messages: Seq<MessageView>) -> Seq<(Config, Seq<u8>)>
    decreases messages.len(),
{
    if messages.len() == 0 {
        Seq::empty()
    } else {
        match messages.last() {
            MessageView::Consume(cfg, bytes) => chunks_of(messages.drop_last()).push((cfg, bytes)),
            _ => chunks_of(messages.drop_last()),
        }
    }
}

/// A consumer has counted the bytes and the end signals among messages, and has for each chunk,
/// in order, its number and a result that the function can give for it.
pub open spec fn accounts_for<T, R, F: Fn(&[u8], &T, u64, u64) -> R>(
    state: ConsumerState<R>,
    f: FnMove<F>,
    data: &T,
    messages: Seq<MessageView>,
) -> bool {
    let chunks = chunks_of(messages);
    &&& state.bytes == bytes_of(messages)
    &&& state.producers_end_signal_count == ends_of(messages)
    &&& state.ret.len() == chunks.len()
    &&& forall|j: int|
        0 <= j < chunks.len() ==> {
            &&& (#[trigger] state.ret[j]).0 == chunks[j].0.chunk_id
            &&& can_give(f, data, chunks[j].0, chunks[j].1, state.ret[j].1)
        }
}

/// A new consumer accounts for no messages, and one that accounts for the messages that it has
/// taken in does so for the next one too.
pub proof fn law_consumer_accounts<T, R, F: Fn(&[u8], &T, u64, u64) -> R>(
    before: ConsumerState<R>,
    after: ConsumerState<R>,
    f: FnMove<F>,
    data: &T,
    messages: Seq<MessageView>,
    m: MessageView,
)
    ensures
        accounts_for(ConsumerState::<R>::start(), f, data, Seq::empty()),
        accounts_for(before, f, data, messages) && takes_in(before, f, data, m, after)
            ==> accounts_for(after, f, data, messages.push(m)),
{
    assert(messages.push(m).drop_last() =~= messages);
    if accounts_for(before, f, data, messages) && takes_in(before, f, data, m, after) {
        let chunks = chunks_of(messages.push(m));
        assert forall|j: int| 0 <= j < chunks.len() implies {
            &&& (#[trigger] after.ret[j]).0 == chunks[j].0.chunk_id
            &&& can_give(f, data, chunks[j].0, chunks[j].1, after.ret[j].1)
        } by {
            if j < chunks_of(messages).len() {
                assert(after.ret[j] == before.ret[j]);
            }
        }
    }
}

/// In a run with buffers, when every consumer has exited, and has accounted for what it took in,
/// the bytes that the consumers report add up to the size of the file.
pub proof fn law_reported_bytes<T, R, F: Fn(&[u8], &T, u64, u64) -> R>(
    params: Params,
    steps: Seq<Step>,
    states: Seq<ConsumerState<R>>,
    f: FnMove<F>,
    data: &T,
)
    requires
        params.wf(),
        params.num_tasks_per_producer > 0,
        System::start(params).can_all(steps),
        System::start(params).after_all(steps).finished(),
        states.len() == params.num_consumers,
        forall|c: int|
            0 <= c < params.num_consumers ==> accounts_for(
                #[trigger] states[c],
                f,
                data,
                System::start(params).after_all(steps).consumers[c].log,
            ),
    ensures
        sum(params.num_consumers, |c: int| states[c].bytes) == params.file.len(),
{
    let s = System::start(params).after_all(steps);
    law_all_bytes_consumed(params, steps);
    lemma_sum_same(
        params.num_consumers,
        |c: int| bytes_of(s.consumers[c].log),
        |c: int| states[c].bytes,
    );
}

} // verus!
