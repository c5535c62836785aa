//! What every step of a run keeps.
use crate::arith::min;
use crate::message::{Config, MessageView};
use crate::producer::{lemma_deliver, lemma_start, ProducerState};
use crate::streams::lemma_drained;
use crate::sum::{lemma_sum_change, lemma_sum_const, lemma_sum_same, sum};
use crate::system::{
    buffers_held, bytes_of, ends_of, from_producer, source, Params, ProducerNode, Step, System,
};
use vstd::arithmetic::div_mod::lemma_add_mod_noop;
use vstd::prelude::*;

verus! {

/// The messages that bring to consumer `c` its share of the chunks that producer `i` has read.
pub open spec fn chunks_for(params: Params, i: int, c: int, loads: Seq<Seq<u8>>) -> Seq<MessageView>
    decreases loads.len(),
{
    if loads.len() == 0 {
        Seq::empty()
    } else {
        let rest = chunks_for(params, i, c, loads.drop_last());
        let k = loads.len() - 1;
        if params.target(i, k) == c {
            rest.push(params.chunk_message(i, k, loads.last()))
        } else {
            rest
        }
    }
}

/// What producer `i` has sent to consumer `c`: the consumer's share of the chunks, and then the
/// end signal.
pub open spec fn sent_by(params: Params, node: ProducerNode, i: int, c: int) -> Seq<MessageView> {
    let chunks = chunks_for(params, i, c, node.loads);
    if node.ends_sent > c {
        chunks.push(params.end_message(i))
    } else {
        chunks
    }
}

/// Where chunk `k` of producer `i` starts.
pub open spec fn chunk_start(params: Params, i: int, k: int) -> int {
    params.start(i).offset + k * params.start(i).task_chunk_size
}

/// The size of chunk `k` of producer `i`.
pub open spec fn chunk_len(params: Params, i: int, k: int) -> int {
    min(params.start(i).task_chunk_size, params.start(i).end_offset - chunk_start(params, i, k))
}

/// A producer has the state that its number and the chunks it has read determine.
pub open spec fn producer_ok(params: Params, node: ProducerNode, i: int) -> bool {
    let k = node.loads.len() as int;
    let start = params.start(i);
    &&& node.state == ProducerState {
        chunk_id: params.chunks_per_producer * i + k,
        offset: node.state.offset,
        done: node.state.done,
        prev_consumer: if k == 0 {
            i
        } else {
            params.target(i, k - 1)
        },
        ..start
    }
    &&& node.state.wf()
    &&& node.state.chunks_left() + k == start.chunks_left()
    &&& node.state.offset == start.offset + node.loads.flatten().len()
    &&& !node.state.done ==> node.state.offset == chunk_start(params, i, k)
    &&& node.state.done ==> k > 0
    &&& forall|j: int| 0 <= j < k ==> (#[trigger] node.loads[j]).len() == chunk_len(params, i, j)
    &&& node.ends_due == if node.state.done {
        params.num_consumers
    } else {
        0
    }
    &&& 0 <= node.ends_sent <= node.ends_due
}

/// A message to producer `i` is a buffer that is its own.
pub open spec fn buffer_ok(params: Params, m: MessageView, i: int) -> bool {
    m matches MessageView::Produce(cfg, _) && config_ok(params, cfg) && cfg.producer_id == i
}

/// What travels with a buffer names a producer of the run and its counts.
pub open spec fn config_ok(params: Params, cfg: Config) -> bool {
    &&& 0 <= cfg.producer_id < params.num_producers
    &&& cfg.num_consumers == params.num_consumers
    &&& cfg.num_chunks == params.chunks_per_producer * params.num_producers
}

/// A message to a consumer is a chunk or an end signal.
pub open spec fn message_ok(params: Params, m: MessageView) -> bool {
    match m {
        MessageView::Consume(cfg, _) => config_ok(params, cfg),
        MessageView::Produce(_, _) => false,
        MessageView::End(id, num_producers) => {
            &&& 0 <= id < params.num_producers
            &&& num_producers == params.num_producers
        },
    }
}

/// The number of bytes that were ever sent to consumers.
pub open spec fn bytes_sent(s: System) -> int {
    sum(s.consumers.len() as int, |c: int| bytes_of(s.consumers[c].sent()))
}

/// The number of bytes that producers have read.
pub open spec fn bytes_loaded(s: System) -> int {
    sum(s.producers.len() as int, |i: int| s.producers[i].loads.flatten().len() as int)
}

/// The number of buffers of producer `i` that are on their way, to it or from it.
pub open spec fn circulating(s: System, i: int) -> int {
    s.producers[i].queue.len() + sum(
        s.consumers.len() as int,
        |c: int| buffers_held(s.consumers[c].queue, i),
    )
}

/// Every producer and every message is as it should be.
pub open spec fn nodes_ok(params: Params, s: System) -> bool {
    &&& s.producers.len() == params.num_producers
    &&& s.consumers.len() == params.num_consumers
    &&& forall|i: int|
        0 <= i < params.num_producers ==> producer_ok(params, #[trigger] s.producers[i], i)
    &&& forall|i: int, b: int|
        0 <= i < params.num_producers && 0 <= b < s.producers[i].queue.len() ==> buffer_ok(
            params,
            #[trigger] s.producers[i].queue[b],
            i,
        )
    &&& forall|c: int, b: int|
        0 <= c < params.num_consumers && 0 <= b < s.consumers[c].sent().len() ==> message_ok(
            params,
            #[trigger] s.consumers[c].sent()[b],
        )
}

/// Each consumer was sent, by each producer, what `sent_by` says.
pub open spec fn streams_ok(params: Params, s: System) -> bool {
    forall|i: int, c: int|
        0 <= i < params.num_producers && 0 <= c < params.num_consumers ==> #[trigger] from_producer(
            s.consumers[c].sent(),
            i,
        ) == sent_by(params, s.producers[i], i, c)
}

/// The buffers of a producer stay as many as it was given, until it exits and leaves those that
/// come back after it.
pub open spec fn buffers_ok(params: Params, s: System) -> bool {
    forall|i: int|
        0 <= i < params.num_producers ==> if (#[trigger] s.producers[i]).exited() {
            s.producers[i].queue.len() == 0 && circulating(s, i) <= params.buffers()
        } else {
            circulating(s, i) == params.buffers()
        }
}

/// Without buffers nothing is ever sent; with them nobody finds a closed channel.
pub open spec fn stops_ok(params: Params, s: System) -> bool {
    if params.buffers() == 0 {
        &&& forall|i: int|
            0 <= i < params.num_producers ==> {
                &&& (#[trigger] s.producers[i]).queue.len() == 0
                &&& !s.producers[i].state.done
                &&& s.producers[i].loads.len() == 0
            }
        &&& forall|c: int|
            0 <= c < params.num_consumers ==> {
                &&& (#[trigger] s.consumers[c]).log.len() == 0
                &&& s.consumers[c].queue.len() == 0
            }
    } else {
        &&& forall|i: int| 0 <= i < params.num_producers ==> !(#[trigger] s.producers[i]).stopped
        &&& forall|c: int| 0 <= c < params.num_consumers ==> !(#[trigger] s.consumers[c]).stopped
    }
}

/// What every step of a run keeps.
pub open spec fn consistent(params: Params, s: System) -> bool {
    &&& nodes_ok(params, s)
    &&& streams_ok(params, s)
    &&& buffers_ok(params, s)
    &&& stops_ok(params, s)
    &&& bytes_sent(s) == bytes_loaded(s)
}

/// What one more message does to the counts.
pub proof fn lemma_push(messages: Seq<MessageView>, m: MessageView, i: int)
    ensures
        ends_of(messages.push(m)) == ends_of(messages) + if m is End {
            1int
        } else {
            0
        },
        bytes_of(messages.push(m)) == bytes_of(messages) + match m {
            MessageView::Consume(_, data) => data.len() as int,
            _ => 0,
        },
        from_producer(messages.push(m), i) == if source(m) == i {
            from_producer(messages, i).push(m)
        } else {
            from_producer(messages, i)
        },
        buffers_held(messages.push(m), i) == buffers_held(messages, i) + if m is Consume && source(
            m,
        ) == i {
            1int
        } else {
            0
        },
{
    assert(messages.push(m).drop_last() =~= messages);
}

/// What the first message contributes to the buffers held.
pub proof fn lemma_held_first(messages: Seq<MessageView>, i: int)
    requires
        messages.len() > 0,
    ensures
        buffers_held(messages, i) == buffers_held(messages.drop_first(), i) + if source(messages[0])
            == i && messages[0] is Consume {
            1int
        } else {
            0
        },
    decreases messages.len(),
{
    if messages.len() == 1 {
        assert(messages.drop_last() =~= messages.drop_first());
        assert(buffers_held(messages.drop_first(), i) == 0);
        assert(messages.last() == messages[0]);
    } else {
        lemma_held_first(messages.drop_last(), i);
        assert(messages.drop_first().drop_last() =~= messages.drop_last().drop_first());
    }
}

/// The next consumer after the one for chunk `k - 1` is the one for chunk `k`.
pub proof fn lemma_next_target(params: Params, i: int, k: int)
    requires
        params.wf(),
        i >= 0,
        k > 0,
    ensures
        crate::producer::next_consumer(params.target(i, k - 1), params.num_consumers)
            == params.target(i, k),
{
    let n = params.num_consumers;
    lemma_add_mod_noop(i + k, 1, n);
    lemma_add_mod_noop((i + k) % n, 1, n);
    vstd::arithmetic::div_mod::lemma_mod_twice(i + k, n);
}

/// A producer after a delivery is what one more chunk makes of it.
pub proof fn lemma_deliver_producer(params: Params, s: System, i: int, data: Seq<u8>)
    requires
        params.wf(),
        nodes_ok(params, s),
        s.can_deliver(i, data),
    ensures
        producer_ok(params, s.deliver(i, data).producers[i], i),
        s.deliver(i, data).producers[i].loads == s.producers[i].loads.push(data),
        s.deliver(i, data).producers[i].ends_sent == 0,
        s.producers[i].ends_sent == 0,
        s.next_config(i).num_consumers == params.num_consumers,
        s.producers[i].state.aim(params.num_consumers).prev_consumer == params.target(
            i,
            s.producers[i].loads.len() as int,
        ),
        s.producers[i].state.aim(params.num_consumers).deliver().chunk_message(
            s.next_config(i),
            data,
        ) == params.chunk_message(i, s.producers[i].loads.len() as int, data),
{
    let node = s.producers[i];
    let k = node.loads.len() as int;
    let start = params.start(i);
    assert(producer_ok(params, node, i));
    assert(buffer_ok(params, s.producers[i].queue[0], i));
    assert(node.state.aim(params.num_consumers).prev_consumer == params.target(i, k)) by {
        if k > 0 {
            lemma_next_target(params, i, k);
        }
    }
    let aimed = node.state.aim(params.num_consumers);
    let next = aimed.deliver();
    lemma_mod_range(i + 1 + k, params.num_consumers);
    lemma_deliver(aimed);
    let t = start.task_chunk_size;
    assert((k + 1) * t == k * t + t) by (nonlinear_arith);
    node.loads.lemma_flatten_push(data);
    let after = s.deliver(i, data).producers[i];
    assert(after.state == next);
    assert(after.loads == node.loads.push(data));
    assert forall|j: int| 0 <= j < k + 1 implies (#[trigger] after.loads[j]).len() == chunk_len(
        params,
        i,
        j,
    ) by {
        if j < k {
            assert(after.loads[j] == node.loads[j]);
        }
    }
}

/// The remainder is in range.
pub proof fn lemma_mod_range(x: int, n: int)
    requires
        n > 0,
    ensures
        0 <= x % n < n,
{
}

/// What sending a message to consumer `c` does to what consumers were sent.
pub proof fn lemma_send(s: System, c: int, m: MessageView)
    requires
        0 <= c < s.consumers.len(),
    ensures
        s.send(c, m).consumers.len() == s.consumers.len(),
        s.send(c, m).consumers[c].log == s.consumers[c].log,
        s.send(c, m).consumers[c].queue == s.consumers[c].queue.push(m),
        s.send(c, m).consumers[c].sent() == s.consumers[c].sent().push(m),
        forall|d: int|
            0 <= d < s.consumers.len() && d != c ==> #[trigger] s.send(c, m).consumers[d]
                == s.consumers[d],
        bytes_sent(s.send(c, m)) == bytes_sent(s) + match m {
            MessageView::Consume(_, data) => data.len() as int,
            _ => 0,
        },
{
    let t = s.send(c, m);
    assert(t.consumers[c].sent() =~= s.consumers[c].sent().push(m));
    lemma_push(s.consumers[c].sent(), m, 0);
    let f = |d: int| bytes_of(s.consumers[d].sent());
    let g = |d: int| bytes_of(t.consumers[d].sent());
    lemma_sum_change(s.consumers.len() as int, f, g, c);
}

/// What sending a message to consumer `c` does to the buffers of producer `i` that consumers
/// hold.
pub proof fn lemma_send_held(s: System, c: int, m: MessageView, i: int)
    requires
        0 <= c < s.consumers.len(),
    ensures
        sum(
            s.send(c, m).consumers.len() as int,
            |d: int| buffers_held(s.send(c, m).consumers[d].queue, i),
        ) == sum(s.consumers.len() as int, |d: int| buffers_held(s.consumers[d].queue, i))
            + if m is Consume && source(m) == i {
            1int
        } else {
            0
        },
{
    let t = s.send(c, m);
    lemma_send(s, c, m);
    lemma_push(s.consumers[c].queue, m, i);
    let f = |d: int| buffers_held(s.consumers[d].queue, i);
    let g = |d: int| buffers_held(t.consumers[d].queue, i);
    lemma_sum_change(s.consumers.len() as int, f, g, c);
}

/// A run starts out consistent.
pub proof fn lemma_start_consistent(params: Params)
    requires
        params.wf(),
    ensures
        consistent(params, System::start(params)),
{
    let s = System::start(params);
    let n = params.num_producers;
    let m = params.chunks_per_producer;
    assert(n <= m * n) by (nonlinear_arith)
        requires
            n > 0,
            m > 0,
    ;
    assert forall|i: int| 0 <= i < n implies producer_ok(params, #[trigger] s.producers[i], i) by {
        lemma_start(params.file.len() as int, n, m, i);
        assert(0 * params.start(i).task_chunk_size == 0) by (nonlinear_arith);
    }
    assert forall|i: int, c: int|
        0 <= i < n && 0 <= c < params.num_consumers implies #[trigger] from_producer(
        s.consumers[c].sent(),
        i,
    ) == sent_by(params, s.producers[i], i, c) by {
        assert(s.consumers[c].sent() =~= Seq::empty());
    }
    assert forall|i: int| 0 <= i < n implies circulating(s, i) == params.buffers()
        && !(#[trigger] s.producers[i]).exited() by {
        lemma_sum_const(
            params.num_consumers,
            |c: int| buffers_held(s.consumers[c].queue, i),
            0,
        );
    }
    assert forall|c: int| 0 <= c < params.num_consumers implies bytes_of(
        (#[trigger] s.consumers[c]).sent(),
    ) == 0 by {
        assert(s.consumers[c].sent() =~= Seq::empty());
    }
    lemma_sum_const(params.num_consumers, |c: int| bytes_of(s.consumers[c].sent()), 0);
    lemma_sum_const(n, |i: int| s.producers[i].loads.flatten().len() as int, 0);
}

/// A delivery keeps a run consistent.
pub proof fn lemma_deliver_consistent(params: Params, s: System, i: int, data: Seq<u8>)
    requires
        params.wf(),
        consistent(params, s),
        s.can_deliver(i, data),
    ensures
        consistent(params, s.deliver(i, data)),
{
    let t = s.deliver(i, data);
    let node = s.producers[i];
    let k = node.loads.len() as int;
    let c = params.target(i, k);
    let m = params.chunk_message(i, k, data);
    lemma_deliver_producer(params, s, i, data);
    assert(buffer_ok(params, s.producers[i].queue[0], i));
    lemma_mod_range(i + 1 + k, params.num_consumers);
    let sent = s.send(c, m);
    assert(t.consumers == sent.consumers);
    lemma_send(s, c, m);
    assert(source(m) == i);
    assert forall|a: int, b: int|
        0 <= a < params.num_producers && 0 <= b < t.producers[a].queue.len() implies buffer_ok(
        params,
        #[trigger] t.producers[a].queue[b],
        a,
    ) by {
        if a == i {
            assert(t.producers[a].queue[b] == s.producers[i].queue[b + 1]);
        } else {
            assert(t.producers[a].queue[b] == s.producers[a].queue[b]);
        }
    }
    assert forall|d: int, b: int|
        0 <= d < params.num_consumers && 0 <= b < t.consumers[d].sent().len() implies message_ok(
        params,
        #[trigger] t.consumers[d].sent()[b],
    ) by {
        if d == c && b == s.consumers[c].sent().len() {
        } else {
            assert(t.consumers[d].sent()[b] == s.consumers[d].sent()[b]);
        }
    }
    assert forall|a: int| 0 <= a < params.num_producers implies producer_ok(
        params,
        #[trigger] t.producers[a],
        a,
    ) by {
        if a != i {
            assert(t.producers[a] == s.producers[a]);
        }
    }
    assert forall|a: int, d: int|
        0 <= a < params.num_producers && 0 <= d < params.num_consumers implies #[trigger]
    from_producer(t.consumers[d].sent(), a) == sent_by(params, t.producers[a], a, d) by {
        assert(from_producer(s.consumers[d].sent(), a) == sent_by(params, s.producers[a], a, d));
        if d == c {
            lemma_push(s.consumers[c].sent(), m, a);
        }
        if a == i {
            assert(t.producers[i].loads.drop_last() =~= node.loads);
        }
    }
    assert forall|a: int| 0 <= a < params.num_producers implies if (
    #[trigger] t.producers[a]).exited() {
        t.producers[a].queue.len() == 0 && circulating(t, a) <= params.buffers()
    } else {
        circulating(t, a) == params.buffers()
    } by {
        lemma_send_held(s, c, m, a);
        lemma_sum_same(
            params.num_consumers,
            |d: int| buffers_held(sent.consumers[d].queue, a),
            |d: int| buffers_held(t.consumers[d].queue, a),
        );
        assert(circulating(t, a) == circulating(s, a));
        if a != i {
            assert(t.producers[a] == s.producers[a]);
        } else {
            assert(!s.producers[a].exited());
        }
    }
    lemma_sum_same(
        params.num_consumers,
        |d: int| bytes_of(sent.consumers[d].sent()),
        |d: int| bytes_of(t.consumers[d].sent()),
    );
    node.loads.lemma_flatten_push(data);
    lemma_sum_change(
        params.num_producers,
        |a: int| s.producers[a].loads.flatten().len() as int,
        |a: int| t.producers[a].loads.flatten().len() as int,
        i,
    );
}

/// An end signal keeps a run consistent.
pub proof fn lemma_signal_end_consistent(params: Params, s: System, i: int)
    requires
        params.wf(),
        consistent(params, s),
        s.can_signal_end(i),
    ensures
        consistent(params, s.signal_end(i)),
{
    let t = s.signal_end(i);
    let node = s.producers[i];
    let c = node.ends_sent;
    let m = params.end_message(i);
    let n = params.num_producers;
    assert(producer_ok(params, node, i));
    let sent = s.send(c, m);
    assert(t.consumers == sent.consumers);
    lemma_send(s, c, m);
    assert(n <= params.chunks_per_producer * n) by (nonlinear_arith)
        requires
            n > 0,
            params.chunks_per_producer > 0,
    ;
    assert(source(m) == i);
    assert forall|a: int, b: int|
        0 <= a < params.num_producers && 0 <= b < t.producers[a].queue.len() implies buffer_ok(
        params,
        #[trigger] t.producers[a].queue[b],
        a,
    ) by {
        assert(t.producers[a].queue[b] == s.producers[a].queue[b]);
    }
    assert forall|d: int, b: int|
        0 <= d < params.num_consumers && 0 <= b < t.consumers[d].sent().len() implies message_ok(
        params,
        #[trigger] t.consumers[d].sent()[b],
    ) by {
        if d == c && b == s.consumers[c].sent().len() {
        } else {
            assert(t.consumers[d].sent()[b] == s.consumers[d].sent()[b]);
        }
    }
    assert forall|a: int| 0 <= a < params.num_producers implies producer_ok(
        params,
        #[trigger] t.producers[a],
        a,
    ) by {
        if a != i {
            assert(t.producers[a] == s.producers[a]);
        }
    }
    assert forall|a: int, d: int|
        0 <= a < params.num_producers && 0 <= d < params.num_consumers implies #[trigger]
    from_producer(t.consumers[d].sent(), a) == sent_by(params, t.producers[a], a, d) by {
        assert(from_producer(s.consumers[d].sent(), a) == sent_by(params, s.producers[a], a, d));
        if d == c {
            lemma_push(s.consumers[c].sent(), m, a);
        }
    }
    assert forall|a: int| 0 <= a < params.num_producers implies if (
    #[trigger] t.producers[a]).exited() {
        t.producers[a].queue.len() == 0 && circulating(t, a) <= params.buffers()
    } else {
        circulating(t, a) == params.buffers()
    } by {
        lemma_send_held(s, c, m, a);
        lemma_sum_same(
            params.num_consumers,
            |d: int| buffers_held(sent.consumers[d].queue, a),
            |d: int| buffers_held(t.consumers[d].queue, a),
        );
        if a != i {
            assert(t.producers[a] == s.producers[a]);
        } else {
            assert(!s.producers[a].exited());
        }
    }
    lemma_sum_same(
        params.num_consumers,
        |d: int| bytes_of(sent.consumers[d].sent()),
        |d: int| bytes_of(t.consumers[d].sent()),
    );
    lemma_sum_same(
        params.num_producers,
        |a: int| s.producers[a].loads.flatten().len() as int,
        |a: int| t.producers[a].loads.flatten().len() as int,
    );
}

/// A receive keeps a run consistent.
pub proof fn lemma_receive_consistent(params: Params, s: System, c: int)
    requires
        params.wf(),
        consistent(params, s),
        s.can_receive(c),
    ensures
        consistent(params, s.receive(c)),
{
    let t = s.receive(c);
    let node = s.consumers[c];
    let m = node.queue[0];
    assert(t.consumers[c].sent() =~= node.sent());
    assert(m == node.sent()[node.log.len() as int]);
    assert(message_ok(params, m));
    assert forall|d: int| 0 <= d < params.num_consumers implies (#[trigger] t.consumers[d]).sent()
        == s.consumers[d].sent() by {}
    assert forall|a: int| 0 <= a < params.num_producers implies {
        &&& (#[trigger] t.producers[a]).loads == s.producers[a].loads
        &&& t.producers[a].ends_sent == s.producers[a].ends_sent
        &&& t.producers[a].ends_due == s.producers[a].ends_due
        &&& t.producers[a].state == s.producers[a].state
    } by {}
    assert forall|a: int, b: int|
        0 <= a < params.num_producers && 0 <= b < t.producers[a].queue.len() implies buffer_ok(
        params,
        #[trigger] t.producers[a].queue[b],
        a,
    ) by {
        if b < s.producers[a].queue.len() {
            assert(t.producers[a].queue[b] == s.producers[a].queue[b]);
        }
    }
    assert forall|a: int| 0 <= a < params.num_producers implies producer_ok(
        params,
        #[trigger] t.producers[a],
        a,
    ) by {
        assert(producer_ok(params, s.producers[a], a));
    }
    assert forall|a: int, d: int|
        0 <= a < params.num_producers && 0 <= d < params.num_consumers implies #[trigger]
    from_producer(t.consumers[d].sent(), a) == sent_by(params, t.producers[a], a, d) by {
        assert(t.consumers[d].sent() == s.consumers[d].sent());
        assert(from_producer(s.consumers[d].sent(), a) == sent_by(params, s.producers[a], a, d));
    }
    assert forall|a: int| 0 <= a < params.num_producers implies if (
    #[trigger] t.producers[a]).exited() {
        t.producers[a].queue.len() == 0 && circulating(t, a) <= params.buffers()
    } else {
        circulating(t, a) == params.buffers()
    } by {
        lemma_held_first(node.queue, a);
        lemma_sum_change(
            params.num_consumers,
            |d: int| buffers_held(s.consumers[d].queue, a),
            |d: int| buffers_held(t.consumers[d].queue, a),
            c,
        );
        assert(s.producers[a].exited() == t.producers[a].exited());
    }
    lemma_sum_same(
        params.num_consumers,
        |d: int| bytes_of(s.consumers[d].sent()),
        |d: int| bytes_of(t.consumers[d].sent()),
    );
    lemma_sum_same(
        params.num_producers,
        |a: int| s.producers[a].loads.flatten().len() as int,
        |a: int| t.producers[a].loads.flatten().len() as int,
    );
}

/// A buffer that is held is among the messages.
pub proof fn lemma_held_exists(messages: Seq<MessageView>, i: int) -> (b: int)
    requires
        buffers_held(messages, i) > 0,
    ensures
        0 <= b < messages.len(),
        messages[b] is Consume,
        source(messages[b]) == i,
    decreases messages.len(),
{
    if messages.last() is Consume && source(messages.last()) == i {
        messages.len() - 1
    } else {
        lemma_held_exists(messages.drop_last(), i)
    }
}

/// Where the first `m` consumers hold buffers of a producer, one of them does.
pub proof fn lemma_held_somewhere(s: System, i: int, m: int) -> (c: int)
    requires
        sum(m, |d: int| buffers_held(s.consumers[d].queue, i)) > 0,
        m >= 0,
    ensures
        0 <= c < m,
        buffers_held(s.consumers[c].queue, i) > 0,
    decreases m,
{
    let f = |d: int| buffers_held(s.consumers[d].queue, i);
    assert(m > 0 ==> sum(m, f) == sum(m - 1, f) + f(m - 1));
    if m > 0 && buffers_held(s.consumers[m - 1].queue, i) > 0 {
        m - 1
    } else {
        lemma_held_somewhere(s, i, m - 1)
    }
}

/// A producer that has buffers and is not done does not find its channel closed.
pub proof fn lemma_not_closed(params: Params, s: System, i: int)
    requires
        consistent(params, s),
        params.buffers() > 0,
        0 <= i < params.num_producers,
        !s.producers[i].state.done,
    ensures
        !s.producer_closed(i),
        !s.consumers_closed(),
{
    assert(!s.producers[i].stopped);
    assert(circulating(s, i) == params.buffers());
    if s.producers[i].queue.len() == 0 {
        let c = lemma_held_somewhere(s, i, params.num_consumers);
        let b = lemma_held_exists(s.consumers[c].queue, i);
        assert(s.consumers[c].queue[b] is Consume);
    }
}

/// A producer that stops keeps a run consistent: it had no buffers.
pub proof fn lemma_stop_producer_consistent(params: Params, s: System, i: int)
    requires
        params.wf(),
        consistent(params, s),
        s.can_stop_producer(i),
    ensures
        consistent(params, s.stop_producer(i)),
{
    let t = s.stop_producer(i);
    if params.buffers() > 0 {
        lemma_not_closed(params, s, i);
    }
    assert forall|a: int| 0 <= a < params.num_producers implies {
        &&& (#[trigger] t.producers[a]).loads == s.producers[a].loads
        &&& t.producers[a].queue == s.producers[a].queue
        &&& t.producers[a].ends_sent == s.producers[a].ends_sent
        &&& t.producers[a].ends_due == s.producers[a].ends_due
        &&& t.producers[a].state == s.producers[a].state
    } by {}
    assert forall|a: int| 0 <= a < params.num_producers implies producer_ok(
        params,
        #[trigger] t.producers[a],
        a,
    ) by {
        assert(producer_ok(params, s.producers[a], a));
    }
    assert forall|a: int, b: int|
        0 <= a < params.num_producers && 0 <= b < t.producers[a].queue.len() implies buffer_ok(
        params,
        #[trigger] t.producers[a].queue[b],
        a,
    ) by {
        assert(t.producers[a].queue[b] == s.producers[a].queue[b]);
    }
    assert forall|a: int, d: int|
        0 <= a < params.num_producers && 0 <= d < params.num_consumers implies #[trigger]
    from_producer(t.consumers[d].sent(), a) == sent_by(params, t.producers[a], a, d) by {
        assert(from_producer(s.consumers[d].sent(), a) == sent_by(params, s.producers[a], a, d));
    }
    assert forall|a: int| 0 <= a < params.num_producers implies if (
    #[trigger] t.producers[a]).exited() {
        t.producers[a].queue.len() == 0 && circulating(t, a) <= params.buffers()
    } else {
        circulating(t, a) == params.buffers()
    } by {
        assert(circulating(t, a) == circulating(s, a));
        assert(a != i ==> t.producers[a] == s.producers[a]);
        assert(s.producers[a].exited() || circulating(s, a) == params.buffers());
    }
    lemma_sum_same(
        params.num_producers,
        |a: int| s.producers[a].loads.flatten().len() as int,
        |a: int| t.producers[a].loads.flatten().len() as int,
    );
}

/// A consumer that stops keeps a run consistent: nothing was ever sent.
pub proof fn lemma_stop_consumer_consistent(params: Params, s: System, c: int)
    requires
        params.wf(),
        consistent(params, s),
        s.can_stop_consumer(c),
    ensures
        consistent(params, s.stop_consumer(c)),
{
    let t = s.stop_consumer(c);
    if params.buffers() > 0 {
        assert forall|i: int| 0 <= i < params.num_producers implies (
        #[trigger] s.producers[i]).ends_sent > c by {
            if !s.producers[i].state.done {
                lemma_not_closed(params, s, i);
            }
            assert(producer_ok(params, s.producers[i], i));
            assert(!s.producers[i].stopped);
            assert(!s.can_signal_end(i));
        }
        lemma_drained(params, s, c);
    }
    assert forall|d: int| 0 <= d < params.num_consumers implies {
        &&& (#[trigger] t.consumers[d]).log == s.consumers[d].log
        &&& t.consumers[d].queue == s.consumers[d].queue
        &&& t.consumers[d].sent() == s.consumers[d].sent()
    } by {}
    assert forall|d: int, b: int|
        0 <= d < params.num_consumers && 0 <= b < t.consumers[d].sent().len() implies message_ok(
        params,
        #[trigger] t.consumers[d].sent()[b],
    ) by {
        assert(t.consumers[d].sent()[b] == s.consumers[d].sent()[b]);
    }
    assert forall|a: int, d: int|
        0 <= a < params.num_producers && 0 <= d < params.num_consumers implies #[trigger]
    from_producer(t.consumers[d].sent(), a) == sent_by(params, t.producers[a], a, d) by {
        assert(t.consumers[d].sent() == s.consumers[d].sent());
        assert(from_producer(s.consumers[d].sent(), a) == sent_by(params, s.producers[a], a, d));
    }
    assert forall|a: int| 0 <= a < params.num_producers implies if (
    #[trigger] t.producers[a]).exited() {
        t.producers[a].queue.len() == 0 && circulating(t, a) <= params.buffers()
    } else {
        circulating(t, a) == params.buffers()
    } by {
        lemma_sum_same(
            params.num_consumers,
            |d: int| buffers_held(s.consumers[d].queue, a),
            |d: int| buffers_held(t.consumers[d].queue, a),
        );
        assert(t.producers[a] == s.producers[a]);
    }
    lemma_sum_same(
        params.num_consumers,
        |d: int| bytes_of(s.consumers[d].sent()),
        |d: int| bytes_of(t.consumers[d].sent()),
    );
}

/// Every state that a run reaches is consistent.
pub proof fn lemma_run_consistent(params: Params, steps: Seq<Step>)
    requires
        params.wf(),
        System::start(params).can_all(steps),
    ensures
        consistent(params, System::start(params).after_all(steps)),
    decreases steps.len(),
{
    if steps.len() == 0 {
        lemma_start_consistent(params);
    } else {
        lemma_run_consistent(params, steps.drop_last());
        let s = System::start(params).after_all(steps.drop_last());
        match steps.last() {
            Step::Deliver(i, data) => lemma_deliver_consistent(params, s, i, data),
            Step::SignalEnd(i) => lemma_signal_end_consistent(params, s, i),
            Step::Receive(c) => lemma_receive_consistent(params, s, c),
            Step::StopProducer(i) => lemma_stop_producer_consistent(params, s, i),
            Step::StopConsumer(c) => lemma_stop_consumer_consistent(params, s, c),
        }
    }
}

} // verus!
