//! What consumers have received, by the numbers that their messages carry.
use crate::arith::{ceil_div, lemma_ceil_div};
use crate::consumer::{can_give, ConsumerState, FnMove};
use crate::laws::{
    accounts_for, chunks_of, law_chunk_numbers_differ, law_chunks_delivered_once, lemma_share,
    lemma_share_has,
};
use crate::message::{Config, MessageView};
use crate::placement::{divides, law_reads_are_exact, lemma_sizes, reads_the_file};
use crate::producer::lemma_start;
use crate::streams::{lemma_chunks_for, lemma_sources};
use crate::system::{from_producer, source, Params, Step, System};
use crate::upkeep::{
    chunk_len, chunk_start, chunks_for, lemma_mod_range, lemma_run_consistent, message_ok,
    producer_ok, sent_by,
};
use vstd::prelude::*;

verus! {

/// A message is among those of its producer.
proof fn lemma_from_has(messages: Seq<MessageView>, b: int)
    requires
        0 <= b < messages.len(),
    ensures
        from_producer(messages, source(messages[b])).contains(messages[b]),
    decreases messages.len(),
{
    let i = source(messages[b]);
    let init = messages.drop_last();
    let all = from_producer(messages, i);
    if b == messages.len() - 1 {
        assert(all.last() == messages[b]);
    } else {
        lemma_from_has(init, b);
        assert(init[b] == messages[b]);
        let x = choose|x: int|
            0 <= x < from_producer(init, i).len() && from_producer(init, i)[x] == messages[b];
        assert(all[x] == messages[b]);
    }
}

/// The messages of a producer are among all messages.
proof fn lemma_from_of(messages: Seq<MessageView>, i: int, x: int)
    requires
        0 <= x < from_producer(messages, i).len(),
    ensures
        messages.contains(from_producer(messages, i)[x]),
    decreases messages.len(),
{
    let init = messages.drop_last();
    let all = from_producer(messages, i);
    if source(messages.last()) == i && x == all.len() - 1 {
        assert(messages[messages.len() - 1] == all[x]);
    } else {
        lemma_from_of(init, i, x);
        let b = choose|b: int| 0 <= b < init.len() && init[b] == from_producer(init, i)[x];
        assert(messages[b] == all[x]);
    }
}

/// A chunk that a consumer was sent is one that its producer has read, and whose turn it was.
proof fn lemma_chunk_of(params: Params, steps: Seq<Step>, c: int, b: int) -> (k: int)
    requires
        params.wf(),
        System::start(params).can_all(steps),
        0 <= c < params.num_consumers,
        0 <= b < System::start(params).after_all(steps).consumers[c].log.len(),
        System::start(params).after_all(steps).consumers[c].log[b] is Consume,
    ensures
        ({
            let s = System::start(params).after_all(steps);
            let m = s.consumers[c].log[b];
            let i = source(m);
            &&& 0 <= i < params.num_producers
            &&& 0 <= k < s.producers[i].loads.len() <= params.chunks_per_producer
            &&& m == params.chunk_message(i, k, s.producers[i].loads[k])
            &&& params.target(i, k) == c
            &&& 0 <= params.chunks_per_producer * i
            &&& params.chunks_per_producer * i + params.chunks_per_producer
                <= params.chunks_per_producer * params.num_producers
        }),
{
    let s = System::start(params).after_all(steps);
    let m = s.consumers[c].log[b];
    let i = source(m);
    lemma_run_consistent(params, steps);
    lemma_sources(params, s, c);
    assert(message_ok(params, m));
    let sent = s.consumers[c].sent();
    assert(sent[b] == m);
    lemma_from_has(sent, b);
    assert(from_producer(sent, i) == sent_by(params, s.producers[i], i, c));
    let loads = s.producers[i].loads;
    let chunks = chunks_for(params, i, c, loads);
    assert(producer_ok(params, s.producers[i], i));
    lemma_start(params.file.len() as int, params.num_producers, params.chunks_per_producer, i);
    let x = choose|x: int|
        0 <= x < from_producer(sent, i).len() && from_producer(sent, i)[x] == m;
    assert(chunks[x] == m);
    lemma_share(params, i, c, loads);
    let per = params.chunks_per_producer;
    assert(0 <= per * i && per * i + per <= per * params.num_producers) by (nonlinear_arith)
        requires
            0 <= i < params.num_producers,
            per > 0,
    ;
    assert(s.producers[i].state.chunks_left() >= 0);
    choose|l: int|
        0 <= l < loads.len() && params.target(i, l) == c && chunks[x]
            == #[trigger] params.chunk_message(i, l, loads[l])
}

/// Every chunk that a consumer has received is what its numbers say. The producer and the number
/// of the chunk give its place in the file, its size, and the consumer whose turn it was; and
/// when the reads are those that the tasks asked for, its bytes are those of the file.
pub proof fn law_chunks_are_what_they_say(
    params: Params,
    steps: Seq<Step>,
    c: int,
    b: int,
    cfg: Config,
    data: Seq<u8>,
    q: int,
    size: int,
    t: int,
)
    requires
        params.wf(),
        System::start(params).can_all(steps),
        0 <= c < params.num_consumers,
        0 <= b < System::start(params).after_all(steps).consumers[c].log.len(),
        System::start(params).after_all(steps).consumers[c].log[b] == MessageView::Consume(
            cfg,
            data,
        ),
        divides(params, cfg.producer_id as int, q, size, t),
    ensures
        ({
            let i = cfg.producer_id as int;
            let k = cfg.chunk_id - 1 - params.chunks_per_producer * i;
            &&& 0 <= i < params.num_producers
            &&& 0 <= k < params.chunks_per_producer
            &&& cfg.num_chunks == params.chunks_per_producer * params.num_producers
            &&& cfg.num_consumers == params.num_consumers
            &&& c == (i + 1 + k) % params.num_consumers
            &&& 0 <= k * t <= size
            &&& (k + 1) * t <= size ==> data.len() == t
            &&& (k + 1) * t >= size ==> data.len() == size - k * t
            &&& reads_the_file(params, steps) ==> forall|j: int|
                0 <= j < data.len() ==> #[trigger] data[j] == params.file[q * i + k * t + j]
        }),
{
    let s = System::start(params).after_all(steps);
    let i = cfg.producer_id as int;
    let k = lemma_chunk_of(params, steps, c, b);
    lemma_run_consistent(params, steps);
    lemma_sources(params, s, c);
    assert(message_ok(params, s.consumers[c].log[b]));
    lemma_sizes(params, i, q, size, t);
    assert(producer_ok(params, s.producers[i], i));
    assert(s.producers[i].loads[k] == data);
    assert(data.len() == chunk_len(params, i, k));
    assert((k + 1) * t == k * t + t) by (nonlinear_arith);
    assert(k * t >= 0) by (nonlinear_arith)
        requires
            k >= 0,
            t >= 0,
    ;
    assert(cfg.chunk_id == params.chunks_per_producer * i + k + 1);
    if reads_the_file(params, steps) {
        law_reads_are_exact(params, steps);
        assert(s.producers[i].loads[k] == params.file.subrange(
            chunk_start(params, i, k),
            chunk_start(params, i, k) + chunk_len(params, i, k),
        ));
    }
}

/// In a run with buffers, when every consumer has exited, every chunk has arrived: as many as it
/// takes to cover the region of a producer, and one if the region is empty. And every consumer
/// has the end signal of every producer.
pub proof fn law_every_chunk_arrives(
    params: Params,
    steps: Seq<Step>,
    i: int,
    k: int,
    c: int,
    q: int,
    size: int,
    t: int,
)
    requires
        params.wf(),
        params.num_tasks_per_producer > 0,
        System::start(params).can_all(steps),
        System::start(params).after_all(steps).finished(),
        0 <= i < params.num_producers,
        divides(params, i, q, size, t),
        k == 0 || (0 < k && k * t < size),
        0 <= c < params.num_consumers,
    ensures
        ({
            let s = System::start(params).after_all(steps);
            let log = s.consumers[(i + 1 + k) % params.num_consumers].log;
            exists|b: int|
                {
                    &&& 0 <= b < log.len()
                    &&& (#[trigger] log[b]) is Consume
                    &&& log[b]->Consume_0.producer_id == i
                    &&& log[b]->Consume_0.chunk_id == params.chunks_per_producer * i + k + 1
                }
        }),
        ({
            let log = System::start(params).after_all(steps).consumers[c].log;
            exists|b: int|
                {
                    &&& 0 <= b < log.len()
                    &&& (#[trigger] log[b]) is End
                    &&& log[b]->End_0 == i
                    &&& log[b]->End_1 == params.num_producers
                }
        }),
{
    let s = System::start(params).after_all(steps);
    let d = (i + 1 + k) % params.num_consumers;
    lemma_mod_range(i + 1 + k, params.num_consumers);
    lemma_run_consistent(params, steps);
    law_chunks_delivered_once(params, steps, i, c);
    law_chunks_delivered_once(params, steps, i, d);
    lemma_sizes(params, i, q, size, t);
    lemma_start(params.file.len() as int, params.num_producers, params.chunks_per_producer, i);
    let loads = s.producers[i].loads;
    if size > 0 {
        let count = ceil_div(size, t);
        lemma_ceil_div(size, t);
        assert(k < count) by (nonlinear_arith)
            requires
                k * t < size <= count * t || (k == 0 && count > 0),
                t > 0,
        ;
    }
    let per = params.chunks_per_producer;
    assert(0 <= per * i && per * i + per <= per * params.num_producers && params.num_producers
        <= per * params.num_producers) by (nonlinear_arith)
        requires
            0 <= i < params.num_producers,
            per > 0,
    ;
    lemma_share_has(params, i, d, loads, k);
    let chunks = chunks_for(params, i, d, loads);
    let x = choose|x: int|
        0 <= x < chunks.len() && #[trigger] chunks[x] == params.chunk_message(i, k, loads[k]);
    let log = s.consumers[d].log;
    assert(from_producer(log, i)[x] == chunks[x]);
    lemma_from_of(log, i, x);
    let b = choose|b: int| 0 <= b < log.len() && log[b] == chunks[x];
    assert(log[b] is Consume);
    let ends = from_producer(s.consumers[c].log, i);
    lemma_from_of(s.consumers[c].log, i, ends.len() - 1);
    let e = choose|e: int|
        0 <= e < s.consumers[c].log.len() && s.consumers[c].log[e] == ends.last();
    assert(s.consumers[c].log[e] is End);
}

/// The numbers of the chunks that go to a consumer rise.
proof fn lemma_chunks_rise(params: Params, i: int, c: int, loads: Seq<Seq<u8>>)
    requires
        i >= 0,
        params.chunks_per_producer >= 0,
        params.chunks_per_producer * i + loads.len() <= u64::MAX,
    ensures
        forall|x: int, y: int|
            0 <= x < y < chunks_for(params, i, c, loads).len() ==> (#[trigger] chunks_for(
                params,
                i,
                c,
                loads,
            )[x])->Consume_0.chunk_id < (#[trigger] chunks_for(
                params,
                i,
                c,
                loads,
            )[y])->Consume_0.chunk_id,
    decreases loads.len(),
{
    assert(0 <= params.chunks_per_producer * i) by (nonlinear_arith)
        requires
            i >= 0,
            params.chunks_per_producer >= 0,
    ;
    if loads.len() > 0 {
        let init = loads.drop_last();
        let all = chunks_for(params, i, c, loads);
        let rest = chunks_for(params, i, c, init);
        lemma_chunks_rise(params, i, c, init);
        lemma_share(params, i, c, init);
        assert forall|x: int, y: int| 0 <= x < y < all.len() implies (
        #[trigger] all[x])->Consume_0.chunk_id < (#[trigger] all[y])->Consume_0.chunk_id by {
            assert(all[x] == rest[x]);
            if y < rest.len() {
                assert(all[y] == rest[y]);
            } else {
                let l = choose|l: int|
                    0 <= l < init.len() && params.target(i, l) == c && rest[x]
                        == #[trigger] params.chunk_message(i, l, init[l]);
                assert(all[x]->Consume_0.chunk_id == params.chunks_per_producer * i + l + 1);
            }
        }
    }
}

/// If the messages of a producer differ, it has each of them in one place only.
proof fn lemma_from_once(messages: Seq<MessageView>, a: int, b: int)
    requires
        0 <= a < b < messages.len(),
        from_producer(messages, source(messages[b])).no_duplicates(),
    ensures
        messages[a] != messages[b],
    decreases messages.len(),
{
    let i = source(messages[b]);
    let init = messages.drop_last();
    let all = from_producer(messages, i);
    let rest = from_producer(init, i);
    if b < messages.len() - 1 {
        assert(rest.no_duplicates()) by {
            assert forall|x: int, y: int|
                0 <= x < rest.len() && 0 <= y < rest.len() && x != y implies rest[x] != rest[y] by {
                assert(rest[x] == all[x] && rest[y] == all[y]);
            }
        }
        lemma_from_once(init, a, b);
        assert(init[a] == messages[a] && init[b] == messages[b]);
    } else if messages[a] == messages[b] {
        lemma_from_has(init, a);
        assert(init[a] == messages[a]);
        let x = choose|x: int| 0 <= x < rest.len() && rest[x] == messages[a];
        assert(all[x] == rest[x]);
        assert(all[all.len() - 1] == messages[b]);
    }
}

/// No chunk arrives twice: two chunks that consumers have received have different numbers.
pub proof fn law_no_chunk_arrives_twice(
    params: Params,
    steps: Seq<Step>,
    c: int,
    a: int,
    d: int,
    b: int,
)
    requires
        params.wf(),
        System::start(params).can_all(steps),
        0 <= c < params.num_consumers,
        0 <= a < System::start(params).after_all(steps).consumers[c].log.len(),
        0 <= d < params.num_consumers,
        0 <= b < System::start(params).after_all(steps).consumers[d].log.len(),
        c != d || a != b,
    ensures
        ({
            let s = System::start(params).after_all(steps);
            let first = s.consumers[c].log[a];
            let second = s.consumers[d].log[b];
            first is Consume && second is Consume ==> first->Consume_0.chunk_id
                != second->Consume_0.chunk_id
        }),
{
    let s = System::start(params).after_all(steps);
    let first = s.consumers[c].log[a];
    let second = s.consumers[d].log[b];
    if first is Consume && second is Consume && first->Consume_0.chunk_id
        == second->Consume_0.chunk_id {
        let k = lemma_chunk_of(params, steps, c, a);
        let l = lemma_chunk_of(params, steps, d, b);
        let i = source(first);
        law_chunk_numbers_differ(
            params.chunks_per_producer,
            params.num_producers,
            i,
            k,
            source(second),
            l,
        );
        lemma_run_consistent(params, steps);
        let sent = s.consumers[c].sent();
        let all = from_producer(sent, i);
        let loads = s.producers[i].loads;
        assert(all == sent_by(params, s.producers[i], i, c));
        lemma_chunks_rise(params, i, c, loads);
        lemma_chunks_for(params, i, c, loads);
        assert forall|x: int, y: int|
            0 <= x < all.len() && 0 <= y < all.len() && x != y implies all[x] != all[y] by {
            let chunks = chunks_for(params, i, c, loads);
            let low = if x < y {
                x
            } else {
                y
            };
            let high = if x < y {
                y
            } else {
                x
            };
            assert(chunks[low] is Consume);
            if high < chunks.len() {
                assert(chunks[low]->Consume_0.chunk_id < chunks[high]->Consume_0.chunk_id);
            }
        }
        assert(sent[a] == first && sent[b] == second && first == second);
        if a < b {
            lemma_from_once(sent, a, b);
        } else {
            lemma_from_once(sent, b, a);
        }
    }
}

/// The chunks among messages are messages.
proof fn lemma_chunks_of(messages: Seq<MessageView>, j: int) -> (b: int)
    requires
        0 <= j < chunks_of(messages).len(),
    ensures
        0 <= b < messages.len(),
        messages[b] == MessageView::Consume(chunks_of(messages)[j].0, chunks_of(messages)[j].1),
    decreases messages.len(),
{
    let init = messages.drop_last();
    if messages.last() is Consume && j == chunks_of(messages).len() - 1 {
        messages.len() - 1
    } else {
        let b = lemma_chunks_of(init, j);
        assert(init[b] == messages[b]);
        b
    }
}

/// Every chunk among messages is counted as one.
proof fn lemma_chunks_have(messages: Seq<MessageView>, b: int) -> (j: int)
    requires
        0 <= b < messages.len(),
        messages[b] is Consume,
    ensures
        0 <= j < chunks_of(messages).len(),
        messages[b] == MessageView::Consume(chunks_of(messages)[j].0, chunks_of(messages)[j].1),
    decreases messages.len(),
{
    if b == messages.len() - 1 {
        chunks_of(messages).len() - 1
    } else {
        assert(messages.drop_last()[b] == messages[b]);
        lemma_chunks_have(messages.drop_last(), b)
    }
}

/// Every result that a consumer has collected is one that the function can give for the part of
/// the file that the number of the chunk stands for: its producer and its place in the region of
/// the producer are the quotient and the remainder of the number, counted from 0, by the chunks
/// per producer.
pub proof fn law_results_are_of_the_file<T, R, F: Fn(&[u8], &T, u64, u64) -> R>(
    params: Params,
    steps: Seq<Step>,
    c: int,
    state: ConsumerState<R>,
    f: FnMove<F>,
    data: &T,
    j: int,
    i: int,
    k: int,
    q: int,
    size: int,
    t: int,
    end: int,
)
    requires
        params.wf(),
        System::start(params).can_all(steps),
        reads_the_file(params, steps),
        0 <= c < params.num_consumers,
        accounts_for(state, f, data, System::start(params).after_all(steps).consumers[c].log),
        0 <= j < state.ret.len(),
        state.ret[j].0 == params.chunks_per_producer * i + k + 1,
        0 <= k < params.chunks_per_producer,
        divides(params, i, q, size, t),
        (k + 1) * t <= size ==> end == (k + 1) * t,
        (k + 1) * t >= size ==> end == size,
    ensures
        c == (i + 1 + k) % params.num_consumers,
        exists|buf: &[u8], num_chunks: u64|
            {
                &&& buf@ == params.file.subrange(q * i + k * t, q * i + end)
                &&& num_chunks == params.chunks_per_producer * params.num_producers
                &&& #[trigger] call_ensures(
                    *f.f,
                    (buf, data, state.ret[j].0, num_chunks),
                    state.ret[j].1,
                )
            },
{
    let s = System::start(params).after_all(steps);
    let log = s.consumers[c].log;
    let (cfg, bytes) = chunks_of(log)[j];
    let b = lemma_chunks_of(log, j);
    let l = lemma_chunk_of(params, steps, c, b);
    let per = params.chunks_per_producer;
    let p = cfg.producer_id as int;
    assert(state.ret[j].0 == cfg.chunk_id);
    assert(per * i + k == per * p + l);
    assert(i == p && k == l) by (nonlinear_arith)
        requires
            per * i + k == per * p + l,
            0 <= k < per,
            0 <= l < per,
    ;
    law_chunks_are_what_they_say(params, steps, c, b, cfg, bytes, q, size, t);
    lemma_sizes(params, i, q, size, t);
    assert((k + 1) * t == k * t + t) by (nonlinear_arith);
    assert(bytes =~= params.file.subrange(q * i + k * t, q * i + end));
    assert(can_give(f, data, cfg, bytes, state.ret[j].1));
    let buf = choose|buf: &[u8]|
        buf@ == bytes && #[trigger] call_ensures(
            *f.f,
            (buf, data, cfg.chunk_id, cfg.num_chunks),
            state.ret[j].1,
        );
    assert(call_ensures(*f.f, (buf, data, state.ret[j].0, cfg.num_chunks), state.ret[j].1));
}

/// In a run with buffers, when every consumer has exited, there is a result for every chunk, with
/// the consumer whose turn it was.
pub proof fn law_every_chunk_has_a_result<T, R, F: Fn(&[u8], &T, u64, u64) -> R>(
    params: Params,
    steps: Seq<Step>,
    state: ConsumerState<R>,
    f: FnMove<F>,
    data: &T,
    i: int,
    k: int,
    q: int,
    size: int,
    t: int,
)
    requires
        params.wf(),
        params.num_tasks_per_producer > 0,
        System::start(params).can_all(steps),
        System::start(params).after_all(steps).finished(),
        0 <= i < params.num_producers,
        divides(params, i, q, size, t),
        k == 0 || (0 < k && k * t < size),
        accounts_for(
            state,
            f,
            data,
            System::start(params).after_all(steps).consumers[(i + 1 + k)
                % params.num_consumers].log,
        ),
    ensures
        exists|j: int|
            0 <= j < state.ret.len() && (#[trigger] state.ret[j]).0 == params.chunks_per_producer
                * i + k + 1,
{
    let s = System::start(params).after_all(steps);
    let c = (i + 1 + k) % params.num_consumers;
    let log = s.consumers[c].log;
    lemma_mod_range(i + 1 + k, params.num_consumers);
    law_every_chunk_arrives(params, steps, i, k, c, q, size, t);
    let b = choose|b: int|
        {
            &&& 0 <= b < log.len()
            &&& (#[trigger] log[b]) is Consume
            &&& log[b]->Consume_0.producer_id == i
            &&& log[b]->Consume_0.chunk_id == params.chunks_per_producer * i + k + 1
        };
    let j = lemma_chunks_have(log, b);
    assert(state.ret[j].0 == chunks_of(log)[j].0.chunk_id);
}

} // verus!
