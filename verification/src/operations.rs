//! What the operations of producers and consumers do, told by their arguments and results alone.
use crate::consumer::{can_give, Consumer, ConsumerStep, FnMove};
use crate::gather::Gathered;
use crate::layout::Layout;
use crate::load::ExactLoad;
use crate::message::{Buffer, Config, Message, MessageView};
use crate::producer::{select_tx, Delivery, Producer, ProducerStep, ReadTask};
use vstd::arithmetic::div_mod::{lemma_fundamental_div_mod, lemma_mod_self_0, lemma_small_mod};
use vstd::prelude::*;

verus! {

/// The consumer after the last one is the first, after any other the next; a number past the
/// circle counts as the number it stands for on it. Neither the producer nor the number of
/// producers plays a part.
pub proof fn law_select_tx(
    i: usize,
    j: usize,
    previous: usize,
    num_consumers: usize,
    n: usize,
    m: usize,
    r: usize,
    q: usize,
)
    requires
        num_consumers > 0,
        call_ensures(select_tx, (i, previous, num_consumers, n), r),
        call_ensures(select_tx, (j, previous, num_consumers, m), q),
    ensures
        r < num_consumers,
        previous + 1 < num_consumers ==> r == previous + 1,
        previous + 1 == num_consumers ==> r == 0,
        exists|turns: int| #[trigger] (num_consumers * turns) + r == previous + 1,
        q == r,
        previous < usize::MAX ==> call_requires(select_tx, (i, previous, num_consumers, n)),
{
    let d = num_consumers as int;
    let x = previous + 1;
    lemma_fundamental_div_mod(x, d);
    assert(d * (x / d) + r == x);
    assert(x == d ==> r == 0) by {
        lemma_mod_self_0(d);
    }
    assert(x < d ==> r == x) by {
        if x < d {
            lemma_small_mod(x as nat, d as nat);
        }
    }
}

/// A producer takes in a buffer that has room for a full chunk or for what is left of the
/// region, whichever is less, if there is a consumer to send it to and a number for the chunk.
/// It takes in anything else.
pub proof fn law_producer_accepts(
    p: &Producer,
    received: &Option<Message>,
    capacity: usize,
    r: bool,
)
    requires
        call_ensures(Producer::accepts, (p, received, capacity), r),
    ensures
        *received matches Some(Message::Produce(cfg, _)) ==> (r <==> {
            &&& capacity >= p@.task_chunk_size || capacity >= p@.end_offset - p@.offset
            &&& cfg.num_consumers > 0
            &&& p@.chunk_id < u64::MAX
        }),
        !(*received matches Some(Message::Produce(_, _))) ==> r,
{
}

/// What a producer that is not done says it accepts, it can be handed.
pub proof fn law_producer_check_suffices(
    p: &Producer,
    q: &mut Producer,
    received: Option<Message>,
    capacity: usize,
    done: bool,
)
    requires
        p.wf(),
        *old(q) == *p,
        call_ensures(Producer::is_done, (p,), done),
        !done,
        call_ensures(Producer::accepts, (p, &received, capacity), true),
    ensures
        call_requires(Producer::receive, (q, received, capacity)),
{
}

/// A producer that gets a buffer reads the next chunk: from where it stands in the file, of the
/// full size or of what is left of the region, whichever is less. What the buffer held stays in
/// it as far as it reaches. The consumer is the next one around the circle, and the producer
/// remembers it and nothing else.
pub proof fn law_producer_receives(
    p: &mut Producer,
    cfg: Config,
    buffer: Buffer,
    capacity: usize,
    r: ProducerStep,
)
    requires
        old(p).wf(),
        cfg.num_consumers > 0,
        call_ensures(
            Producer::receive,
            (p, Some(Message::Produce(cfg, buffer)), capacity),
            r,
        ),
    ensures
        r matches ProducerStep::Read(task) && {
            let left = old(p)@.end_offset - old(p)@.offset;
            &&& task.offset == old(p)@.offset
            &&& old(p)@.task_chunk_size <= left ==> task.buffer@.len() == old(p)@.task_chunk_size
            &&& left <= old(p)@.task_chunk_size ==> task.buffer@.len() == left
            &&& forall|j: int|
                0 <= j < task.buffer@.len() && j < buffer@.len() ==> #[trigger] task.buffer@[j]
                    == buffer@[j]
            &&& forall|j: int|
                buffer@.len() <= j < task.buffer@.len() ==> #[trigger] task.buffer@[j] == 0
            &&& task.cfg == cfg
            &&& task.consumer < cfg.num_consumers
            &&& old(p)@.prev_consumer + 1 < cfg.num_consumers ==> task.consumer
                == old(p)@.prev_consumer + 1
            &&& old(p)@.prev_consumer + 1 == cfg.num_consumers ==> task.consumer == 0
            &&& exists|turns: int|
                #[trigger] (cfg.num_consumers * turns) + task.consumer == old(p)@.prev_consumer + 1
            &&& final(p)@.prev_consumer == task.consumer
        },
        final(p)@.id == old(p)@.id,
        final(p)@.num_producers == old(p)@.num_producers,
        final(p)@.chunk_id == old(p)@.chunk_id,
        final(p)@.offset == old(p)@.offset,
        final(p)@.end_offset == old(p)@.end_offset,
        final(p)@.task_chunk_size == old(p)@.task_chunk_size,
        final(p)@.done == old(p)@.done,
{
    let d = cfg.num_consumers as int;
    let x = old(p)@.prev_consumer + 1;
    lemma_fundamental_div_mod(x, d);
    assert(d * (x / d) + x % d == x);
    if x < d {
        lemma_small_mod(x as nat, d as nat);
    } else if x == d {
        lemma_mod_self_0(d);
    }
}

/// A producer that gets anything but a buffer to fill exits, and is left as it was.
pub proof fn law_producer_exits(
    p: &mut Producer,
    received: Option<Message>,
    capacity: usize,
    r: ProducerStep,
)
    requires
        !(received matches Some(Message::Produce(_, _))),
        call_ensures(Producer::receive, (p, received, capacity), r),
    ensures
        r is Exit,
        *final(p) == *old(p),
{
}

/// A producer sends the chunk as it was read, under the number after the last one, to the
/// consumer that it remembers, and moves on by the length of the chunk. It is done when it has
/// reached the end of its region, and only then it sends an end signal to each consumer.
pub proof fn law_delivery(
    p: &mut Producer,
    cfg: Config,
    buffer: Buffer,
    r: Delivery,
)
    requires
        old(p).wf(),
        old(p)@.num_producers <= u64::MAX,
        old(p)@.chunk_id < u64::MAX,
        buffer@.len() == old(p)@.task_chunk_size || buffer@.len() == old(p)@.end_offset
            - old(p)@.offset,
        buffer@.len() <= old(p)@.task_chunk_size,
        buffer@.len() <= old(p)@.end_offset - old(p)@.offset,
        call_ensures(Producer::deliver, (p, cfg, buffer), r),
    ensures
        r.consumer == old(p)@.prev_consumer,
        r.message matches Message::Consume(sent, bytes) && {
            &&& bytes@ == buffer@
            &&& sent.chunk_id == old(p)@.chunk_id + 1
            &&& sent.num_chunks == cfg.num_chunks
            &&& sent.producer_id == cfg.producer_id
            &&& sent.num_consumers == cfg.num_consumers
        },
        final(p)@.done <==> old(p)@.offset + buffer@.len() == old(p)@.end_offset,
        r.ends@.len() == if final(p)@.done {
            cfg.num_consumers as int
        } else {
            0
        },
        forall|c: int|
            0 <= c < r.ends@.len() ==> {
                &&& (#[trigger] r.ends@[c]) matches Message::End(id, n)
                &&& id == old(p)@.id
                &&& n == old(p)@.num_producers
            },
        final(p)@.chunk_id == old(p)@.chunk_id + 1,
        final(p)@.offset == old(p)@.offset + buffer@.len(),
        final(p)@.id == old(p)@.id,
        final(p)@.num_producers == old(p)@.num_producers,
        final(p)@.end_offset == old(p)@.end_offset,
        final(p)@.task_chunk_size == old(p)@.task_chunk_size,
        final(p)@.prev_consumer == old(p)@.prev_consumer,
        !old(p)@.done ==> call_requires(Producer::deliver, (p, cfg, buffer)),
{
    assert forall|c: int| 0 <= c < r.ends@.len() implies {
        &&& (#[trigger] r.ends@[c]) matches Message::End(id, n)
        &&& id == old(p)@.id
        &&& n == old(p)@.num_producers
    } by {
        assert(r.ends@[c]@ is End);
    }
    assert(r.message@ is Consume);
}

/// A new producer is not done, and one that has delivered a chunk is done when the chunk reaches
/// the end of its region.
pub proof fn law_is_done(
    layout: &Layout,
    i: u64,
    new: &Producer,
    new_done: bool,
    p: &mut Producer,
    cfg: Config,
    buffer: Buffer,
    delivery: Delivery,
    after: &Producer,
    after_done: bool,
)
    requires
        call_ensures(Producer::new, (layout, i), *new),
        call_ensures(Producer::is_done, (new,), new_done),
        old(p).wf(),
        buffer@.len() == old(p)@.task_chunk_size || buffer@.len() == old(p)@.end_offset
            - old(p)@.offset,
        buffer@.len() <= old(p)@.task_chunk_size,
        buffer@.len() <= old(p)@.end_offset - old(p)@.offset,
        call_ensures(Producer::deliver, (p, cfg, buffer), delivery),
        *after == *final(p),
        call_ensures(Producer::is_done, (after,), after_done),
    ensures
        !new_done,
        after_done <==> old(p)@.offset + buffer@.len() == old(p)@.end_offset,
{
}

/// The chunks of a producer follow each other in the file without a gap: the one that is read
/// after a delivery starts where the delivered one ended, and it goes to the consumer after the
/// one that got the other.
pub proof fn law_chunks_follow_each_other(
    first: &mut Producer,
    sent: &mut Producer,
    second: &mut Producer,
    cfg: Config,
    cfg2: Config,
    buffer: Buffer,
    buffer2: Buffer,
    filled: Buffer,
    capacity: usize,
    capacity2: usize,
    task: ReadTask,
    delivery: Delivery,
    task2: ReadTask,
)
    requires
        old(first).wf(),
        *old(sent) == *final(first),
        *old(second) == *final(sent),
        cfg2.num_consumers == cfg.num_consumers,
        cfg.num_consumers > 0,
        call_ensures(
            Producer::receive,
            (first, Some(Message::Produce(cfg, buffer)), capacity),
            ProducerStep::Read(task),
        ),
        filled@.len() == task.buffer@.len(),
        call_ensures(Producer::deliver, (sent, task.cfg, filled), delivery),
        call_ensures(
            Producer::receive,
            (second, Some(Message::Produce(cfg2, buffer2)), capacity2),
            ProducerStep::Read(task2),
        ),
    ensures
        task2.offset == task.offset + filled@.len(),
        delivery.consumer == task.consumer,
        task.consumer + 1 < cfg.num_consumers ==> task2.consumer == task.consumer + 1,
        task.consumer + 1 == cfg.num_consumers ==> task2.consumer == 0,
{
    law_producer_receives(first, cfg, buffer, capacity, ProducerStep::Read(task));
    law_producer_receives(second, cfg2, buffer2, capacity2, ProducerStep::Read(task2));
}

/// A load starts with nothing read of the buffer. It asks for a read at its offset as long as
/// some of the buffer is missing, and gives back the buffer that it has.
pub proof fn law_load(buffer: Buffer, offset: u64, l: ExactLoad, next: Option<u64>, r: Buffer)
    requires
        call_ensures(ExactLoad::new, (buffer, offset), l),
        call_ensures(ExactLoad::next_read, (&l,), next),
        call_ensures(ExactLoad::into_buffer, (l,), r),
    ensures
        l@.buffer == buffer@,
        l@.data_read == 0,
        l@.offset == offset,
        buffer@.len() == 0 ==> next is None,
        buffer@.len() > 0 ==> next == Some(offset),
        r@ == buffer@,
{
}

/// Every read of a load starts at the offset that the load was made with, until as many bytes
/// have been read as the buffer holds.
pub proof fn law_load_next(l: &ExactLoad, next: Option<u64>)
    requires
        0 <= l@.offset <= u64::MAX,
        call_ensures(ExactLoad::next_read, (l,), next),
    ensures
        next is None <==> l@.data_read >= l@.buffer.len(),
        next matches Some(offset) ==> offset == l@.offset,
        0 <= l@.data_read <= l@.buffer.len() ==> call_requires(ExactLoad::next_read, (l,)),
{
}

/// What is left to read is the end of the buffer. What is written there comes to stand after
/// what had been read, and nothing else changes.
pub proof fn law_load_unfilled(l: &mut ExactLoad, rest: &mut [u8])
    requires
        0 <= old(l)@.data_read <= old(l)@.buffer.len(),
        call_ensures(ExactLoad::unfilled, (l,), rest),
        final(rest)@.len() == old(rest)@.len(),
    ensures
        old(rest)@.len() == old(l)@.buffer.len() - old(l)@.data_read,
        forall|j: int|
            0 <= j < old(rest)@.len() ==> #[trigger] old(rest)@[j] == old(l)@.buffer[
            old(l)@.data_read + j],
        final(l)@.buffer.len() == old(l)@.buffer.len(),
        forall|j: int|
            0 <= j < old(l)@.data_read ==> #[trigger] final(l)@.buffer[j] == old(l)@.buffer[j],
        forall|j: int|
            old(l)@.data_read <= j < old(l)@.buffer.len() ==> #[trigger] final(l)@.buffer[j]
                == final(rest)@[j - old(l)@.data_read],
        final(l)@.data_read == old(l)@.data_read,
        final(l)@.offset == old(l)@.offset,
        call_requires(ExactLoad::unfilled, (l,)),
{
}

/// A read of `count` bytes counts for as many, and changes neither the buffer nor the offset.
pub proof fn law_load_advance(l: &mut ExactLoad, count: usize)
    requires
        call_ensures(ExactLoad::advance, (l, count), ()),
    ensures
        final(l)@.data_read == old(l)@.data_read + count,
        final(l)@.buffer == old(l)@.buffer,
        final(l)@.offset == old(l)@.offset,
        0 <= old(l)@.data_read && old(l)@.data_read + count <= old(l)@.buffer.len()
            ==> call_requires(ExactLoad::advance, (l, count)),
{
}

/// A shared function gives what the function gives.
pub proof fn law_shared_function<F: Fn(&[u8], &T, u64, u64) -> R, T, R>(
    f: &FnMove<F>,
    buf: &[u8],
    t: &T,
    a: u64,
    b: u64,
    r: R,
)
    requires
        call_ensures(FnMove::<F>::call::<T, R>, (f, buf, t, a, b), r),
    ensures
        call_ensures(*f.f, (buf, t, a, b), r),
{
}

/// A consumer takes in every chunk whose bytes it can still count, every end signal that it can
/// still count, and the end of its channel; it never takes in a buffer to fill.
pub proof fn law_consumer_accepts<R>(c: &Consumer<R>, received: &Option<Message>, r: bool)
    requires
        call_ensures(Consumer::<R>::accepts, (c, received), r),
    ensures
        *received matches Some(Message::Consume(_, buffer)) ==> (r <==> c@.bytes + buffer@.len()
            <= usize::MAX),
        *received matches Some(Message::Produce(_, _)) ==> !r,
        *received matches Some(Message::End(_, _)) ==> (r <==> c@.producers_end_signal_count
            < u64::MAX),
        *received is None ==> r,
{
}

/// What a consumer says it accepts, it can be handed, with any function that can be called on
/// the chunk.
pub proof fn law_consumer_check_suffices<T, R, F: Fn(&[u8], &T, u64, u64) -> R>(
    c: &Consumer<R>,
    d: &mut Consumer<R>,
    f: &FnMove<F>,
    data: &T,
    received: Option<Message>,
)
    requires
        *old(d) == *c,
        call_ensures(Consumer::<R>::accepts, (c, &received), true),
        forall|buf: &[u8], id: u64, num_chunks: u64|
            #[trigger] call_requires(*f.f, (buf, data, id, num_chunks)),
    ensures
        call_requires(Consumer::<R>::receive::<T, F>, (d, f, data, received)),
{
}

/// A consumer that gets a chunk counts its bytes, runs the function on them with the numbers of
/// the chunk, keeps the result under the number of the chunk after the results it had, and
/// returns the buffer as it came to the producer that it came from.
pub proof fn law_consumer_consumes<T, R, F: Fn(&[u8], &T, u64, u64) -> R>(
    c: &mut Consumer<R>,
    f: &FnMove<F>,
    data: &T,
    cfg: Config,
    buffer: Buffer,
    r: ConsumerStep,
)
    requires
        call_ensures(
            Consumer::<R>::receive::<T, F>,
            (c, f, data, Some(Message::Consume(cfg, buffer))),
            r,
        ),
    ensures
        final(c)@.bytes == old(c)@.bytes + buffer@.len(),
        final(c)@.ret.len() == old(c)@.ret.len() + 1,
        forall|j: int|
            0 <= j < old(c)@.ret.len() ==> #[trigger] final(c)@.ret[j] == old(c)@.ret[j],
        final(c)@.ret.last().0 == cfg.chunk_id,
        exists|buf: &[u8]|
            buf@ == buffer@ && #[trigger] call_ensures(
                *f.f,
                (buf, data, cfg.chunk_id, cfg.num_chunks),
                final(c)@.ret.last().1,
            ),
        final(c)@.producers_end_signal_count == old(c)@.producers_end_signal_count,
        r matches ConsumerStep::Return(producer_id, message) && {
            &&& producer_id == cfg.producer_id
            &&& message matches Message::Produce(returned, bytes) && {
                &&& returned == cfg
                &&& bytes@ == buffer@
            }
        },
{
    let m = Message::Consume(cfg, buffer);
    assert(m@ == MessageView::Consume(cfg, buffer@));
    let value = choose|value: R|
        {
            &&& #[trigger] can_give(*f, data, cfg, buffer@, value)
            &&& final(c)@ == old(c)@.consume(cfg.chunk_id, buffer@.len() as int, value)
        };
    assert(can_give(*f, data, cfg, buffer@, value));
    assert(final(c)@.ret.last() == (cfg.chunk_id, value));
    let buf = choose|buf: &[u8]|
        buf@ == buffer@ && #[trigger] call_ensures(
            *f.f,
            (buf, data, cfg.chunk_id, cfg.num_chunks),
            value,
        );
    assert(call_ensures(
        *f.f,
        (buf, data, cfg.chunk_id, cfg.num_chunks),
        final(c)@.ret.last().1,
    ));
    assert(r->Return_1@ is Produce);
}

/// A consumer that gets an end signal counts it, and stops when it has counted as many as the
/// signal says there are producers.
pub proof fn law_consumer_counts_ends<T, R, F: Fn(&[u8], &T, u64, u64) -> R>(
    c: &mut Consumer<R>,
    f: &FnMove<F>,
    data: &T,
    id: u64,
    num_producers: u64,
    r: ConsumerStep,
)
    requires
        call_ensures(
            Consumer::<R>::receive::<T, F>,
            (c, f, data, Some(Message::End(id, num_producers))),
            r,
        ),
    ensures
        final(c)@.bytes == old(c)@.bytes,
        final(c)@.ret == old(c)@.ret,
        final(c)@.producers_end_signal_count == old(c)@.producers_end_signal_count + 1,
        r matches ConsumerStep::EndSignal(signal) && {
            &&& signal.producer_id == id
            &&& signal.num_producers == num_producers
            &&& signal.count == old(c)@.producers_end_signal_count + 1
            &&& signal.is_last <==> old(c)@.producers_end_signal_count + 1 >= num_producers
        },
{
    let m = Message::End(id, num_producers);
    assert(m@ == MessageView::End(id, num_producers));
}

/// A consumer that finds its channel closed exits, and is left as it was.
pub proof fn law_consumer_exits<T, R, F: Fn(&[u8], &T, u64, u64) -> R>(
    c: &mut Consumer<R>,
    f: &FnMove<F>,
    data: &T,
    r: ConsumerStep,
)
    requires
        call_ensures(Consumer::<R>::receive::<T, F>, (c, f, data, None), r),
    ensures
        r is Exit,
        *final(c) == *old(c),
{
}

/// A consumer gives out what it has counted and collected, and the results of all consumers
/// are gathered one after the other, their bytes added up.
pub proof fn law_results_are_gathered<R>(
    c: Consumer<R>,
    out: (usize, Vec<(u64, R)>),
    empty: Gathered<R>,
    g: &mut Gathered<R>,
)
    requires
        call_ensures(Consumer::<R>::finish, (c,), out),
        call_ensures(Gathered::<R>::new, (), empty),
        call_ensures(Gathered::<R>::join, (g, out.0, out.1), ()),
    ensures
        empty.bytes_consumed == 0,
        empty.ret@.len() == 0,
        out.0 == c@.bytes,
        out.1@ == c@.ret,
        final(g).bytes_consumed == old(g).bytes_consumed + c@.bytes,
        final(g).ret@.len() == old(g).ret@.len() + c@.ret.len(),
        forall|j: int|
            0 <= j < old(g).ret@.len() ==> #[trigger] final(g).ret@[j] == old(g).ret@[j],
        forall|j: int|
            old(g).ret@.len() <= j < final(g).ret@.len() ==> #[trigger] final(g).ret@[j]
                == c@.ret[j - old(g).ret@.len()],
        old(g).bytes_consumed + out.0 <= usize::MAX ==> call_requires(
            Gathered::<R>::join,
            (g, out.0, out.1),
        ),
{
}

} // verus!
