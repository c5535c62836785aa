//! A run never gets stuck, and it ends.
use crate::producer::lemma_deliver;
use crate::streams::{lemma_drained, lemma_ended, lemma_sources};
use crate::sum::{lemma_sum_change, lemma_sum_nonnegative, lemma_sum_same, sum};
use crate::system::{ConsumerNode, Params, ProducerNode, Step, System};
use crate::upkeep::{
    buffer_ok, circulating, consistent, lemma_deliver_producer, lemma_held_somewhere,
    lemma_mod_range, lemma_not_closed, lemma_run_consistent, lemma_stop_consumer_consistent,
    message_ok, producer_ok,
};
use vstd::prelude::*;

verus! {

/// The number of messages that a producer has still to send.
pub open spec fn sends_left(params: Params, node: ProducerNode) -> int {
    node.state.chunks_left() + if node.state.done {
        node.ends_due - node.ends_sent
    } else {
        params.num_consumers
    }
}

/// The steps that a producer and the messages it has still to send can give rise to: a message
/// is sent and received, and the producer may find its channel closed.
pub open spec fn producer_steps_left(params: Params, node: ProducerNode) -> int {
    2 * sends_left(params, node) + if node.stopped {
        0int
    } else {
        1
    }
}

/// The steps that a consumer and the messages that wait for it can give rise to: each message is
/// received, and the consumer may find its channel closed.
pub open spec fn consumer_steps_left(node: ConsumerNode) -> int {
    node.queue.len() + if node.stopped {
        0int
    } else {
        1
    }
}

/// An upper bound on the steps that are left.
pub open spec fn steps_left(params: Params, s: System) -> int {
    sum(params.num_producers, |i: int| producer_steps_left(params, s.producers[i])) + sum(
        params.num_consumers,
        |c: int| consumer_steps_left(s.consumers[c]),
    )
}

/// Every step brings the end of the run closer.
pub proof fn lemma_step_advances(params: Params, s: System, step: Step)
    requires
        params.wf(),
        consistent(params, s),
        s.can(step),
    ensures
        steps_left(params, s.after(step)) < steps_left(params, s),
{
    let t = s.after(step);
    let n = params.num_producers;
    let f = |i: int| producer_steps_left(params, s.producers[i]);
    let g = |i: int| producer_steps_left(params, t.producers[i]);
    let u = |c: int| consumer_steps_left(s.consumers[c]);
    let v = |c: int| consumer_steps_left(t.consumers[c]);
    match step {
        Step::Deliver(i, data) => {
            lemma_deliver_producer(params, s, i, data);
            let c = params.target(i, s.producers[i].loads.len() as int);
            lemma_mod_range(i + 1 + s.producers[i].loads.len(), params.num_consumers);
            assert(producer_ok(params, s.producers[i], i));
            lemma_deliver(s.producers[i].state.aim(params.num_consumers));
            lemma_sum_change(n, f, g, i);
            lemma_sum_change(params.num_consumers, u, v, c);
        },
        Step::SignalEnd(i) => {
            assert(producer_ok(params, s.producers[i], i));
            lemma_sum_change(n, f, g, i);
            lemma_sum_change(params.num_consumers, u, v, s.producers[i].ends_sent);
        },
        Step::Receive(c) => {
            lemma_sources(params, s, c);
            assert(message_ok(params, s.consumers[c].queue[0]));
            assert forall|i: int| 0 <= i < n implies #[trigger] f(i) == g(i) by {
                assert(t.producers[i].state == s.producers[i].state);
            }
            lemma_sum_same(n, f, g);
            lemma_sum_change(params.num_consumers, u, v, c);
        },
        Step::StopProducer(i) => {
            lemma_sum_change(n, f, g, i);
        },
        Step::StopConsumer(c) => {
            lemma_sum_change(params.num_consumers, u, v, c);
        },
    }
}

/// The bound on the steps that are left is not negative.
pub proof fn lemma_steps_left_nonnegative(params: Params, s: System)
    requires
        params.wf(),
        consistent(params, s),
    ensures
        steps_left(params, s) >= 0,
{
    let f = |i: int| producer_steps_left(params, s.producers[i]);
    assert forall|i: int| 0 <= i < params.num_producers implies #[trigger] f(i) >= 0 by {
        assert(producer_ok(params, s.producers[i], i));
        if !s.producers[i].state.done {
            lemma_deliver(s.producers[i].state);
        }
    }
    lemma_sum_nonnegative(params.num_producers, f);
    lemma_sum_nonnegative(params.num_consumers, |c: int| consumer_steps_left(s.consumers[c]));
}

/// No run goes on for ever: its steps are no more than twice the messages that producers have
/// to send when it starts, and one for each producer and consumer.
pub proof fn law_runs_end(params: Params, steps: Seq<Step>)
    requires
        params.wf(),
        System::start(params).can_all(steps),
    ensures
        steps.len() <= steps_left(params, System::start(params)),
        steps.len() + steps_left(params, System::start(params).after_all(steps)) <= steps_left(
            params,
            System::start(params),
        ),
    decreases steps.len(),
{
    lemma_run_consistent(params, steps);
    lemma_steps_left_nonnegative(params, System::start(params).after_all(steps));
    if steps.len() > 0 {
        law_runs_end(params, steps.drop_last());
        lemma_run_consistent(params, steps.drop_last());
        lemma_step_advances(
            params,
            System::start(params).after_all(steps.drop_last()),
            steps.last(),
        );
    }
}

/// As long as some consumer has not exited, something can happen: a run that cannot go on has
/// finished.
pub proof fn law_never_stuck(params: Params, steps: Seq<Step>)
    requires
        params.wf(),
        System::start(params).can_all(steps),
        !System::start(params).after_all(steps).finished(),
    ensures
        exists|step: Step| System::start(params).after_all(steps).can(step),
{
    let s = System::start(params).after_all(steps);
    let n = params.num_producers;
    lemma_run_consistent(params, steps);
    if params.buffers() == 0 {
        let c = choose|c: int|
            0 <= c < s.consumers.len() && !(#[trigger] s.consumers[c]).exited();
        assert(s.can(Step::StopConsumer(c)));
    } else if exists|i: int| 0 <= i < n && !(#[trigger] s.producers[i]).exited() {
        let i = choose|i: int| 0 <= i < n && !(#[trigger] s.producers[i]).exited();
        let node = s.producers[i];
        assert(producer_ok(params, node, i));
        if node.state.done {
            assert(s.can(Step::SignalEnd(i)));
        } else if node.queue.len() > 0 {
            assert(buffer_ok(params, s.producers[i].queue[0], i));
            let data = Seq::new(node.state.chunk_size() as nat, |j: int| 0u8);
            assert(s.can(Step::Deliver(i, data)));
        } else {
            assert(circulating(s, i) == params.buffers());
            let c = lemma_held_somewhere(s, i, params.num_consumers);
            assert(s.consumers[c].queue.len() > 0);
            if s.consumers[c].ended() {
                lemma_ended(params, s, c);
            }
            lemma_sources(params, s, c);
            assert(message_ok(params, s.consumers[c].queue[0]));
            assert(s.can(Step::Receive(c)));
        }
    } else {
        let c = choose|c: int|
            0 <= c < s.consumers.len() && !(#[trigger] s.consumers[c]).exited();
        assert forall|i: int| 0 <= i < n implies (#[trigger] s.producers[i]).ends_sent > c by {
            assert(producer_ok(params, s.producers[i], i));
            assert(s.producers[i].exited() && !s.producers[i].stopped);
        }
        if s.consumers[c].queue.len() == 0 {
            lemma_drained(params, s, c);
        }
        lemma_sources(params, s, c);
        assert(message_ok(params, s.consumers[c].queue[0]));
        assert(s.can(Step::Receive(c)));
    }
}

/// A consumer to which nothing can come any more stops: when its queue is empty, and no producer
/// can send any more, it has exited, or it finds its channel closed and exits.
pub proof fn law_closed_channel_stops(params: Params, steps: Seq<Step>, c: int)
    requires
        params.wf(),
        System::start(params).can_all(steps),
        0 <= c < params.num_consumers,
        System::start(params).after_all(steps).consumers[c].queue.len() == 0,
        forall|i: int|
            0 <= i < params.num_producers ==> (#[trigger] System::start(params).after_all(
                steps,
            ).producers[i]).exited(),
    ensures
        ({
            let s = System::start(params).after_all(steps);
            ||| s.consumers[c].exited()
            ||| s.can_stop_consumer(c) && s.stop_consumer(c).consumers[c].exited()
        }),
{
    let s = System::start(params).after_all(steps);
    lemma_run_consistent(params, steps);
    if params.buffers() > 0 {
        assert forall|i: int| 0 <= i < params.num_producers implies (
        #[trigger] s.producers[i]).ends_sent > c by {
            assert(producer_ok(params, s.producers[i], i));
            assert(s.producers[i].exited() && !s.producers[i].stopped);
        }
        lemma_drained(params, s, c);
    }
}

/// In a run with buffers no channel closes on a producer or consumer that still waits: nobody
/// stops for want of senders.
pub proof fn law_channels_stay_open(params: Params, steps: Seq<Step>)
    requires
        params.wf(),
        params.num_tasks_per_producer > 0,
        System::start(params).can_all(steps),
    ensures
        ({
            let s = System::start(params).after_all(steps);
            &&& forall|i: int|
                0 <= i < params.num_producers ==> !(#[trigger] s.producers[i]).stopped
                    && !s.can_stop_producer(i)
            &&& forall|c: int|
                0 <= c < params.num_consumers ==> !(#[trigger] s.consumers[c]).stopped
                    && !s.can_stop_consumer(c)
        }),
{
    let s = System::start(params).after_all(steps);
    lemma_run_consistent(params, steps);
    assert forall|i: int| 0 <= i < params.num_producers implies !(#[trigger] s.producers[i]).stopped
        && !s.can_stop_producer(i) by {
        if s.can_stop_producer(i) {
            lemma_not_closed(params, s, i);
        }
    }
    assert forall|c: int| 0 <= c < params.num_consumers implies !(#[trigger] s.consumers[c]).stopped
        && !s.can_stop_consumer(c) by {
        if s.can_stop_consumer(c) {
            lemma_stop_consumer_consistent(params, s, c);
            assert(s.stop_consumer(c).consumers[c].stopped);
        }
    }
}

/// A run without buffers reads nothing, and its consumers receive nothing.
pub proof fn law_without_buffers(params: Params, steps: Seq<Step>)
    requires
        params.wf(),
        params.num_tasks_per_producer == 0,
        System::start(params).can_all(steps),
    ensures
        ({
            let s = System::start(params).after_all(steps);
            &&& forall|i: int|
                0 <= i < params.num_producers ==> (#[trigger] s.producers[i]).loads.len() == 0
            &&& forall|c: int|
                0 <= c < params.num_consumers ==> (#[trigger] s.consumers[c]).log.len() == 0
        }),
{
    lemma_run_consistent(params, steps);
}

} // verus!
