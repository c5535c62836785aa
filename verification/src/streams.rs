//! What the order of messages tells: a consumer that has the end signal of a producer has all
//! its chunks.
use crate::message::MessageView;
use crate::sum::{lemma_sum_change, lemma_sum_const, lemma_sum_full, sum};
use crate::system::{bytes_of, ends_of, from_producer, source, Params, System};
use crate::upkeep::{chunks_for, consistent, lemma_push, message_ok, producer_ok, sent_by};
use vstd::prelude::*;

verus! {

/// Picking out a producer's messages, and counting end signals and bytes, go over to messages
/// that follow each other.
pub proof fn lemma_append(a: Seq<MessageView>, b: Seq<MessageView>, i: int)
    ensures
        from_producer(a + b, i) == from_producer(a, i) + from_producer(b, i),
        ends_of(a + b) == ends_of(a) + ends_of(b),
        bytes_of(a + b) == bytes_of(a) + bytes_of(b),
    decreases b.len(),
{
    if b.len() == 0 {
        assert(a + b =~= a);
        assert(from_producer(a, i) + from_producer(b, i) =~= from_producer(a, i));
    } else {
        lemma_append(a, b.drop_last(), i);
        assert((a + b).drop_last() =~= a + b.drop_last());
        assert(from_producer(a + b, i) =~= from_producer(a, i) + from_producer(b, i));
    }
}

/// End signals can be counted producer by producer.
pub proof fn lemma_ends_by_producer(messages: Seq<MessageView>, num_producers: int)
    requires
        num_producers >= 0,
        forall|j: int|
            0 <= j < messages.len() ==> 0 <= source(#[trigger] messages[j]) < num_producers,
    ensures
        ends_of(messages) == sum(num_producers, |i: int| ends_of(from_producer(messages, i))),
    decreases messages.len(),
{
    let g = |i: int| ends_of(from_producer(messages, i));
    if messages.len() == 0 {
        lemma_sum_const(num_producers, g, 0);
    } else {
        let init = messages.drop_last();
        let m = messages.last();
        let f = |i: int| ends_of(from_producer(init, i));
        assert forall|j: int| 0 <= j < init.len() implies 0 <= source(#[trigger] init[j])
            < num_producers by {
            assert(init[j] == messages[j]);
        }
        lemma_ends_by_producer(init, num_producers);
        lemma_push(from_producer(init, source(m)), m, 0);
        lemma_sum_change(num_producers, f, g, source(m));
    }
}

/// Chunks are not end signals.
pub proof fn lemma_no_ends(messages: Seq<MessageView>)
    requires
        forall|j: int| 0 <= j < messages.len() ==> (#[trigger] messages[j]) is Consume,
    ensures
        ends_of(messages) == 0,
    decreases messages.len(),
{
    if messages.len() > 0 {
        assert forall|j: int| 0 <= j < messages.drop_last().len() implies (
        #[trigger] messages.drop_last()[j]) is Consume by {
            assert(messages.drop_last()[j] == messages[j]);
        }
        lemma_no_ends(messages.drop_last());
        assert(messages[messages.len() - 1] is Consume);
    }
}

/// A producer sends a consumer chunks before the end signal.
pub proof fn lemma_chunks_for(params: Params, i: int, c: int, loads: Seq<Seq<u8>>)
    ensures
        forall|j: int|
            0 <= j < chunks_for(params, i, c, loads).len() ==> (#[trigger] chunks_for(
                params,
                i,
                c,
                loads,
            )[j]) is Consume,
    decreases loads.len(),
{
    if loads.len() > 0 {
        lemma_chunks_for(params, i, c, loads.drop_last());
    }
}

/// A message is among those of its producer.
pub proof fn lemma_from_nonempty(messages: Seq<MessageView>, j: int)
    requires
        0 <= j < messages.len(),
    ensures
        from_producer(messages, source(messages[j])).len() > 0,
    decreases messages.len(),
{
    if j < messages.len() - 1 {
        lemma_from_nonempty(messages.drop_last(), j);
        assert(messages.drop_last()[j] == messages[j]);
    }
}

/// A producer's messages to a consumer hold an end signal just when it has sent one there.
pub proof fn lemma_ends_sent_by(params: Params, s: System, i: int, c: int)
    requires
        consistent(params, s),
        0 <= i < params.num_producers,
        0 <= c < params.num_consumers,
    ensures
        ends_of(from_producer(s.consumers[c].sent(), i)) == if s.producers[i].ends_sent > c {
            1int
        } else {
            0
        },
{
    let chunks = chunks_for(params, i, c, s.producers[i].loads);
    assert(from_producer(s.consumers[c].sent(), i) == sent_by(params, s.producers[i], i, c));
    lemma_chunks_for(params, i, c, s.producers[i].loads);
    lemma_no_ends(chunks);
    lemma_push(chunks, params.end_message(i), i);
}

/// A producer's messages that a consumer has taken in hold at most one end signal; if they hold
/// it, none of its messages is still on the way there.
pub proof fn lemma_log_ends(params: Params, s: System, i: int, c: int)
    requires
        consistent(params, s),
        0 <= i < params.num_producers,
        0 <= c < params.num_consumers,
    ensures
        ends_of(from_producer(s.consumers[c].log, i)) <= 1,
        ends_of(from_producer(s.consumers[c].log, i)) == 1 ==> {
            &&& s.producers[i].ends_sent > c
            &&& from_producer(s.consumers[c].queue, i).len() == 0
        },
{
    let log = from_producer(s.consumers[c].log, i);
    let queue = from_producer(s.consumers[c].queue, i);
    let sent = from_producer(s.consumers[c].sent(), i);
    let chunks = chunks_for(params, i, c, s.producers[i].loads);
    lemma_append(s.consumers[c].log, s.consumers[c].queue, i);
    assert(sent == log + queue);
    assert(sent == sent_by(params, s.producers[i], i, c));
    lemma_chunks_for(params, i, c, s.producers[i].loads);
    if s.producers[i].ends_sent > c && queue.len() == 0 {
        assert(log =~= sent);
        lemma_ends_sent_by(params, s, i, c);
    } else {
        assert forall|j: int| 0 <= j < log.len() implies (#[trigger] log[j]) is Consume by {
            assert(log[j] == sent[j]);
            assert(sent[j] == chunks[j]);
        }
        lemma_no_ends(log);
    }
}

/// What a consumer has taken in, and what waits for it, are chunks and end signals.
pub proof fn lemma_sources(params: Params, s: System, c: int)
    requires
        consistent(params, s),
        0 <= c < params.num_consumers,
    ensures
        forall|j: int|
            0 <= j < s.consumers[c].log.len() ==> message_ok(
                params,
                #[trigger] s.consumers[c].log[j],
            ),
        forall|j: int|
            0 <= j < s.consumers[c].queue.len() ==> message_ok(
                params,
                #[trigger] s.consumers[c].queue[j],
            ),
{
    let node = s.consumers[c];
    assert forall|j: int| 0 <= j < node.log.len() implies message_ok(
        params,
        #[trigger] node.log[j],
    ) by {
        assert(node.log[j] == s.consumers[c].sent()[j]);
    }
    assert forall|j: int| 0 <= j < node.queue.len() implies message_ok(
        params,
        #[trigger] node.queue[j],
    ) by {
        assert(node.queue[j] == s.consumers[c].sent()[node.log.len() + j]);
    }
}

/// When a consumer has as many end signals as it waits for, every producer has sent it its own,
/// and nothing is left on its way to the consumer.
pub proof fn lemma_ended(params: Params, s: System, c: int)
    requires
        params.wf(),
        consistent(params, s),
        0 <= c < params.num_consumers,
        s.consumers[c].ended(),
    ensures
        forall|i: int|
            0 <= i < params.num_producers ==> (#[trigger] s.producers[i]).ends_sent > c
                && s.producers[i].state.done,
        s.consumers[c].queue.len() == 0,
        s.consumers[c].sent() == s.consumers[c].log,
{
    let n = params.num_producers;
    let log = s.consumers[c].log;
    let queue = s.consumers[c].queue;
    lemma_sources(params, s, c);
    assert(message_ok(params, log[log.len() - 1]));
    lemma_ends_by_producer(log, n);
    let f = |i: int| ends_of(from_producer(log, i));
    assert forall|i: int| 0 <= i < n implies #[trigger] f(i) <= 1 by {
        lemma_log_ends(params, s, i, c);
    }
    lemma_sum_full(n, f);
    assert forall|i: int| 0 <= i < n implies (#[trigger] s.producers[i]).ends_sent > c
        && s.producers[i].state.done by {
        assert(f(i) == 1);
        lemma_log_ends(params, s, i, c);
        assert(producer_ok(params, s.producers[i], i));
    }
    if queue.len() > 0 {
        let i = source(queue[0]);
        assert(message_ok(params, queue[0]));
        assert(f(i) == 1);
        lemma_log_ends(params, s, i, c);
        lemma_from_nonempty(queue, 0);
    }
    assert(s.consumers[c].sent() =~= log);
}

/// A consumer that has taken in everything, after every producer has sent it its end signal,
/// has them all.
pub proof fn lemma_drained(params: Params, s: System, c: int)
    requires
        params.wf(),
        consistent(params, s),
        0 <= c < params.num_consumers,
        s.consumers[c].queue.len() == 0,
        forall|i: int|
            0 <= i < params.num_producers ==> (#[trigger] s.producers[i]).ends_sent > c,
    ensures
        s.consumers[c].ended(),
{
    let n = params.num_producers;
    let log = s.consumers[c].log;
    assert(s.consumers[c].sent() =~= log);
    lemma_sources(params, s, c);
    lemma_ends_by_producer(log, n);
    let f = |i: int| ends_of(from_producer(log, i));
    assert forall|i: int| 0 <= i < n implies #[trigger] f(i) == 1 by {
        assert(s.producers[i].ends_sent > c);
        lemma_ends_sent_by(params, s, i, c);
    }
    lemma_sum_const(n, f, 1);
    assert(ends_of(log) == n);
    assert(message_ok(params, log[log.len() - 1]));
    let i = source(log.last());
    assert(from_producer(log, i).last() == log.last());
    assert(s.producers[i].ends_sent > c);
    assert(from_producer(s.consumers[c].sent(), i) == sent_by(params, s.producers[i], i, c));
    assert(log.last() == params.end_message(i));
}

} // verus!
