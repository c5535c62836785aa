//! Buffers never have to grow, and counts stay in range.
use crate::arith::lemma_ceil_div_monotone;
use crate::consumer::{ConsumerState, FnMove};
use crate::laws::{accounts_for, law_chunk_numbers_differ, law_regions_tile};
use crate::layout::{lemma_regions, producer_chunk_size, region_size, task_size};
use crate::message::MessageView;
use crate::producer::{lemma_deliver, lemma_start};
use crate::streams::{lemma_append, lemma_ends_by_producer, lemma_ends_sent_by, lemma_sources};
use crate::sum::{
    lemma_sum_first, lemma_sum_full, lemma_sum_monotone, lemma_sum_nonnegative, lemma_sum_same, sum,
};
use crate::system::{bytes_of, ends_of, from_producer, source, Params, Step, System};
use crate::upkeep::{
    buffer_ok, bytes_loaded, consistent, lemma_deliver_producer, lemma_mod_range, lemma_push,
    lemma_run_consistent, lemma_send, message_ok, producer_ok,
};
use vstd::prelude::*;

verus! {

/// The size of the largest chunk of a run.
pub open spec fn largest_chunk(params: Params) -> int {
    task_size(
        producer_chunk_size(params.file.len() as int, params.num_producers),
        params.chunks_per_producer,
    )
}

/// A buffer of producer `i` that holds `len` bytes has room for the next chunk, if there is one,
/// and holds no more than the largest chunk.
pub open spec fn fits(params: Params, s: System, i: int, len: int) -> bool {
    &&& !s.producers[i].state.done ==> len >= s.producers[i].state.chunk_size()
    &&& len <= largest_chunk(params)
}

/// All buffers that are on their way fit.
pub open spec fn all_fit(params: Params, s: System) -> bool {
    &&& forall|i: int, b: int|
        0 <= i < params.num_producers && 0 <= b < s.producers[i].queue.len() ==> fits(
            params,
            s,
            i,
            (#[trigger] s.producers[i].queue[b])->Produce_1.len() as int,
        )
    &&& forall|c: int, b: int|
        0 <= c < params.num_consumers && 0 <= b < s.consumers[c].queue.len() && (
        #[trigger] s.consumers[c].queue[b]) is Consume ==> fits(
            params,
            s,
            source(s.consumers[c].queue[b]),
            s.consumers[c].queue[b]->Consume_1.len() as int,
        )
}

/// The full chunks of a region are no larger than those of the first region.
proof fn lemma_largest(params: Params, i: int)
    requires
        params.wf(),
        0 <= i < params.num_producers,
    ensures
        params.start(i).task_chunk_size <= largest_chunk(params),
{
    let total = params.file.len() as int;
    lemma_regions(total, params.num_producers);
    lemma_ceil_div_monotone(
        region_size(total, params.num_producers, i),
        producer_chunk_size(total, params.num_producers),
        params.chunks_per_producer,
    );
}

/// Buffers fit when a run starts.
proof fn lemma_start_fits(params: Params)
    requires
        params.wf(),
    ensures
        all_fit(params, System::start(params)),
{
    let s = System::start(params);
    assert forall|i: int, b: int|
        0 <= i < params.num_producers && 0 <= b < s.producers[i].queue.len() implies fits(
        params,
        s,
        i,
        (#[trigger] s.producers[i].queue[b])->Produce_1.len() as int,
    ) by {
        lemma_start(params.file.len() as int, params.num_producers, params.chunks_per_producer, i);
        lemma_largest(params, i);
    }
}

/// Every step keeps buffers fit: the chunks of a producer do not get larger.
proof fn lemma_step_fits(params: Params, s: System, step: Step)
    requires
        params.wf(),
        consistent(params, s),
        all_fit(params, s),
        s.can(step),
    ensures
        all_fit(params, s.after(step)),
{
    let t = s.after(step);
    match step {
        Step::Deliver(i, data) => {
            let node = s.producers[i];
            let k = node.loads.len() as int;
            let c = params.target(i, k);
            let m = params.chunk_message(i, k, data);
            lemma_deliver_producer(params, s, i, data);
            assert(buffer_ok(params, node.queue[0], i));
            lemma_mod_range(i + 1 + k, params.num_consumers);
            lemma_send(s, c, m);
            assert(producer_ok(params, node, i));
            lemma_largest(params, i);
            assert(source(m) == i);
            assert forall|a: int, b: int|
                0 <= a < params.num_producers && 0 <= b < t.producers[a].queue.len() implies fits(
                params,
                t,
                a,
                (#[trigger] t.producers[a].queue[b])->Produce_1.len() as int,
            ) by {
                if a == i {
                    assert(t.producers[a].queue[b] == s.producers[i].queue[b + 1]);
                } else {
                    assert(t.producers[a].queue[b] == s.producers[a].queue[b]);
                }
            }
            assert forall|d: int, b: int|
                0 <= d < params.num_consumers && 0 <= b < t.consumers[d].queue.len() && (
                #[trigger] t.consumers[d].queue[b]) is Consume implies fits(
                params,
                t,
                source(t.consumers[d].queue[b]),
                t.consumers[d].queue[b]->Consume_1.len() as int,
            ) by {
                if d == c && b == s.consumers[c].queue.len() {
                } else {
                    assert(t.consumers[d].queue[b] == s.consumers[d].queue[b]);
                    lemma_sources(params, s, d);
                    assert(message_ok(params, s.consumers[d].queue[b]));
                }
            }
        },
        Step::SignalEnd(i) => {
            let c = s.producers[i].ends_sent;
            assert(producer_ok(params, s.producers[i], i));
            lemma_send(s, c, s.producers[i].state.end_message());
            assert forall|a: int, b: int|
                0 <= a < params.num_producers && 0 <= b < t.producers[a].queue.len() implies fits(
                params,
                t,
                a,
                (#[trigger] t.producers[a].queue[b])->Produce_1.len() as int,
            ) by {
                assert(t.producers[a].queue[b] == s.producers[a].queue[b]);
            }
            assert forall|d: int, b: int|
                0 <= d < params.num_consumers && 0 <= b < t.consumers[d].queue.len() && (
                #[trigger] t.consumers[d].queue[b]) is Consume implies fits(
                params,
                t,
                source(t.consumers[d].queue[b]),
                t.consumers[d].queue[b]->Consume_1.len() as int,
            ) by {
                assert(t.consumers[d].queue[b] == s.consumers[d].queue[b]);
                lemma_sources(params, s, d);
                assert(message_ok(params, s.consumers[d].queue[b]));
            }
        },
        Step::Receive(c) => {
            let m = s.consumers[c].queue[0];
            lemma_sources(params, s, c);
            assert(message_ok(params, m));
            assert forall|a: int| 0 <= a < params.num_producers implies (
            #[trigger] t.producers[a]).state == s.producers[a].state by {}
            assert forall|a: int, b: int|
                0 <= a < params.num_producers && 0 <= b < t.producers[a].queue.len() implies fits(
                params,
                t,
                a,
                (#[trigger] t.producers[a].queue[b])->Produce_1.len() as int,
            ) by {
                if b < s.producers[a].queue.len() {
                    assert(t.producers[a].queue[b] == s.producers[a].queue[b]);
                } else {
                    assert(m is Consume && source(m) == a);
                }
            }
            assert forall|d: int, b: int|
                0 <= d < params.num_consumers && 0 <= b < t.consumers[d].queue.len() && (
                #[trigger] t.consumers[d].queue[b]) is Consume implies fits(
                params,
                t,
                source(t.consumers[d].queue[b]),
                t.consumers[d].queue[b]->Consume_1.len() as int,
            ) by {
                lemma_sources(params, s, d);
                if d == c {
                    assert(t.consumers[d].queue[b] == s.consumers[d].queue[b + 1]);
                    assert(message_ok(params, s.consumers[d].queue[b + 1]));
                } else {
                    assert(t.consumers[d].queue[b] == s.consumers[d].queue[b]);
                    assert(message_ok(params, s.consumers[d].queue[b]));
                }
            }
        },
        Step::StopProducer(_) | Step::StopConsumer(_) => {
            assert forall|a: int, b: int|
                0 <= a < params.num_producers && 0 <= b < t.producers[a].queue.len() implies fits(
                params,
                t,
                a,
                (#[trigger] t.producers[a].queue[b])->Produce_1.len() as int,
            ) by {
                assert(t.producers[a].queue[b] == s.producers[a].queue[b]);
            }
            assert forall|d: int, b: int|
                0 <= d < params.num_consumers && 0 <= b < t.consumers[d].queue.len() && (
                #[trigger] t.consumers[d].queue[b]) is Consume implies fits(
                params,
                t,
                source(t.consumers[d].queue[b]),
                t.consumers[d].queue[b]->Consume_1.len() as int,
            ) by {
                assert(t.consumers[d].queue[b] == s.consumers[d].queue[b]);
                lemma_sources(params, s, d);
                assert(message_ok(params, s.consumers[d].queue[b]));
            }
        },
    }
}

/// Buffers fit in every state that a run reaches.
proof fn lemma_run_fits(params: Params, steps: Seq<Step>)
    requires
        params.wf(),
        System::start(params).can_all(steps),
    ensures
        all_fit(params, System::start(params).after_all(steps)),
    decreases steps.len(),
{
    if steps.len() == 0 {
        lemma_start_fits(params);
    } else {
        lemma_run_fits(params, steps.drop_last());
        lemma_run_consistent(params, steps.drop_last());
        lemma_step_fits(
            params,
            System::start(params).after_all(steps.drop_last()),
            steps.last(),
        );
    }
}

/// A buffer never has to grow: every buffer that waits for a producer is already as long as the
/// producer's next chunk. So the producer accepts it, its capacity being no less than its
/// length.
pub proof fn law_buffers_never_grow(
    params: Params,
    steps: Seq<Step>,
    i: int,
    b: int,
    capacity: int,
)
    requires
        params.wf(),
        System::start(params).can_all(steps),
        0 <= i < params.num_producers,
        !System::start(params).after_all(steps).producers[i].state.done,
        0 <= b < System::start(params).after_all(steps).producers[i].queue.len(),
        capacity >= System::start(params).after_all(
            steps,
        ).producers[i].queue[b]->Produce_1.len(),
    ensures
        ({
            let node = System::start(params).after_all(steps).producers[i];
            &&& node.queue[b]->Produce_1.len() >= node.state.chunk_size()
            &&& node.state.accepts(Some(node.queue[b]), capacity)
        }),
{
    let s = System::start(params).after_all(steps);
    lemma_run_consistent(params, steps);
    lemma_run_fits(params, steps);
    assert(buffer_ok(params, s.producers[i].queue[b], i));
    assert(fits(params, s, i, s.producers[i].queue[b]->Produce_1.len() as int));
    assert(producer_ok(params, s.producers[i], i));
    lemma_start(params.file.len() as int, params.num_producers, params.chunks_per_producer, i);
    lemma_deliver(s.producers[i].state);
    law_chunk_numbers_differ(
        params.chunks_per_producer,
        params.num_producers,
        i,
        s.producers[i].loads.len() as int,
        i,
        0,
    );
}

/// No buffer that is on its way, to a producer or to a consumer, holds more bytes than the
/// largest chunk, which is the capacity that is reserved for it.
pub proof fn law_buffers_stay_small(params: Params, steps: Seq<Step>)
    requires
        params.wf(),
        System::start(params).can_all(steps),
    ensures
        ({
            let s = System::start(params).after_all(steps);
            &&& forall|i: int, b: int|
                0 <= i < params.num_producers && 0 <= b < s.producers[i].queue.len() ==> (
                #[trigger] s.producers[i].queue[b])->Produce_1.len() <= largest_chunk(params)
            &&& forall|c: int, b: int|
                0 <= c < params.num_consumers && 0 <= b < s.consumers[c].queue.len() && (
                #[trigger] s.consumers[c].queue[b]) is Consume
                    ==> s.consumers[c].queue[b]->Consume_1.len() <= largest_chunk(params)
        }),
{
    lemma_run_fits(params, steps);
}

/// Bytes are not counted below zero.
proof fn lemma_bytes_nonnegative(messages: Seq<MessageView>)
    ensures
        bytes_of(messages) >= 0,
        0 <= ends_of(messages) <= messages.len(),
    decreases messages.len(),
{
    if messages.len() > 0 {
        lemma_bytes_nonnegative(messages.drop_last());
    }
}

/// Producers never read more than the file.
proof fn lemma_loaded_bounded(params: Params, s: System)
    requires
        params.wf(),
        consistent(params, s),
    ensures
        bytes_loaded(s) <= params.file.len(),
{
    let total = params.file.len() as int;
    let n = params.num_producers;
    let f = |i: int| s.producers[i].loads.flatten().len() as int;
    let g = |i: int| region_size(total, n, i);
    assert forall|i: int| 0 <= i < n implies #[trigger] f(i) <= g(i) by {
        assert(producer_ok(params, s.producers[i], i));
    }
    lemma_sum_monotone(n, f, g);
    law_regions_tile(total, n);
}

/// What the first consumers have received, and what was sent to one more, is no more than the
/// file.
proof fn lemma_sent_bounded(params: Params, s: System, m: int)
    requires
        params.wf(),
        consistent(params, s),
        0 <= m < params.num_consumers,
    ensures
        sum(m, |c: int| bytes_of(s.consumers[c].log)) + bytes_of(s.consumers[m].sent())
            <= params.file.len(),
        sum(m, |c: int| bytes_of(s.consumers[c].log)) >= 0,
{
    let f = |c: int| bytes_of(s.consumers[c].log);
    let g = |c: int| bytes_of(s.consumers[c].sent());
    assert forall|c: int| 0 <= c < params.num_consumers implies 0 <= #[trigger] f(c) <= g(c) by {
        lemma_append(s.consumers[c].log, s.consumers[c].queue, 0);
        lemma_bytes_nonnegative(s.consumers[c].log);
        lemma_bytes_nonnegative(s.consumers[c].queue);
    }
    assert forall|c: int| 0 <= c < params.num_consumers implies #[trigger] g(c) >= 0 by {
        assert(f(c) <= g(c));
    }
    lemma_sum_nonnegative(m, f);
    lemma_sum_monotone(m, f, g);
    lemma_sum_first(params.num_consumers, g, m);
    lemma_loaded_bounded(params, s);
}

/// A consumer accepts every message that a run brings it, if the size of the file fits in the
/// machine's word.
pub proof fn law_consumers_accept<T, R, F: Fn(&[u8], &T, u64, u64) -> R>(
    params: Params,
    steps: Seq<Step>,
    c: int,
    state: ConsumerState<R>,
    f: FnMove<F>,
    data: &T,
)
    requires
        params.wf(),
        params.file.len() <= usize::MAX,
        System::start(params).can_all(steps),
        0 <= c < params.num_consumers,
        System::start(params).after_all(steps).consumers[c].queue.len() > 0,
        accounts_for(state, f, data, System::start(params).after_all(steps).consumers[c].log),
    ensures
        state.accepts(Some(System::start(params).after_all(steps).consumers[c].queue[0])),
{
    let s = System::start(params).after_all(steps);
    let node = s.consumers[c];
    let m = node.queue[0];
    let n = params.num_producers;
    lemma_run_consistent(params, steps);
    lemma_sources(params, s, c);
    assert(message_ok(params, m));
    let rest = node.queue.drop_first();
    assert(node.sent() =~= node.log.push(m) + rest);
    lemma_append(node.log.push(m), rest, 0);
    lemma_push(node.log, m, 0);
    lemma_bytes_nonnegative(rest);
    lemma_sent_bounded(params, s, c);
    let ends = |i: int| ends_of(from_producer(node.sent(), i));
    assert forall|i: int| 0 <= i < n implies #[trigger] ends(i) <= 1 by {
        lemma_ends_sent_by(params, s, i, c);
    }
    assert forall|j: int| 0 <= j < node.sent().len() implies 0 <= source(
        #[trigger] node.sent()[j],
    ) < n by {
        assert(message_ok(params, s.consumers[c].sent()[j]));
    }
    lemma_ends_by_producer(node.sent(), n);
    lemma_sum_full(n, ends);
    assert(n <= params.chunks_per_producer * n) by (nonlinear_arith)
        requires
            n > 0,
            params.chunks_per_producer > 0,
    ;
}

/// The bytes of the consumers can be added up, one consumer after the other, at any time, if the
/// size of the file fits in the machine's word.
pub proof fn law_gathering_fits<T, R, F: Fn(&[u8], &T, u64, u64) -> R>(
    params: Params,
    steps: Seq<Step>,
    states: Seq<ConsumerState<R>>,
    f: FnMove<F>,
    data: &T,
    m: int,
)
    requires
        params.wf(),
        params.file.len() <= usize::MAX,
        System::start(params).can_all(steps),
        states.len() == params.num_consumers,
        forall|c: int|
            0 <= c < params.num_consumers ==> accounts_for(
                #[trigger] states[c],
                f,
                data,
                System::start(params).after_all(steps).consumers[c].log,
            ),
        0 <= m < params.num_consumers,
    ensures
        0 <= sum(m, |c: int| states[c].bytes),
        sum(m, |c: int| states[c].bytes) + states[m].bytes <= usize::MAX,
{
    let s = System::start(params).after_all(steps);
    lemma_run_consistent(params, steps);
    lemma_sent_bounded(params, s, m);
    lemma_append(s.consumers[m].log, s.consumers[m].queue, 0);
    lemma_bytes_nonnegative(s.consumers[m].queue);
    lemma_sum_same(
        m,
        |c: int| bytes_of(s.consumers[c].log),
        |c: int| states[c].bytes,
    );
    assert(accounts_for(states[m], f, data, s.consumers[m].log));
}

} // verus!
