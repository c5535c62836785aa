//! What the operations that set up a run do, told by their arguments and results alone.
use crate::arith::{lemma_ceil_div, lemma_ceil_div_monotone, lemma_ceil_div_unique};
use crate::consumer::Consumer;
use crate::launch::launch;
use crate::layout::{lemma_regions, Layout};
use crate::message::Message;
use crate::producer::Producer;
use crate::run::{build_consumers, build_producers, Run};
use crate::system::{Params, System};
use vstd::prelude::*;

verus! {

/// The regions of all producers but the last are of one size, the least of which
/// `num_producers` cover the file, and the last region is what they leave. The full chunks of a
/// region are of the least size of which `chunks_per_producer` cover it.
pub proof fn law_layout_sizes(
    total_size: u64,
    num_producers: u64,
    chunks_per_producer: u64,
    r: Layout,
)
    requires
        call_ensures(Layout::new, (total_size, num_producers, chunks_per_producer), r),
    ensures
        r.total_size == total_size,
        r.num_producers == num_producers,
        r.chunks_per_producer == chunks_per_producer,
        (r.producer_chunk_size - 1) * num_producers < total_size <= r.producer_chunk_size
            * num_producers,
        (num_producers - 1) * r.producer_chunk_size + r.last_producer_chunk_size == total_size,
        (r.task_chunk_size - 1) * chunks_per_producer < r.producer_chunk_size <= r.task_chunk_size
            * chunks_per_producer,
        (r.last_prod_task_chunk_size - 1) * chunks_per_producer < r.last_producer_chunk_size
            <= r.last_prod_task_chunk_size * chunks_per_producer,
{
    lemma_ceil_div(total_size as int, num_producers as int);
    lemma_ceil_div(r.producer_chunk_size as int, chunks_per_producer as int);
    lemma_ceil_div(r.last_producer_chunk_size as int, chunks_per_producer as int);
}

/// A layout exists just when there are producers and chunks, the sums that round up stay in 64
/// bits, and the regions before the last do not reach past the end of the file. `q` is the size
/// of a region.
pub proof fn law_can_divide(
    total_size: u64,
    num_producers: u64,
    chunks_per_producer: u64,
    q: int,
    r: bool,
)
    requires
        call_ensures(Layout::can_divide, (total_size, num_producers, chunks_per_producer), r),
        num_producers > 0 ==> (q - 1) * num_producers < total_size <= q * num_producers,
    ensures
        r <==> {
            &&& num_producers > 0
            &&& chunks_per_producer > 0
            &&& total_size + num_producers <= u64::MAX
            &&& (num_producers - 1) * q <= total_size
            &&& q + chunks_per_producer <= u64::MAX
        },
{
    if num_producers > 0 {
        lemma_ceil_div_unique(total_size as int, num_producers as int, q);
    }
}

/// Every region has a last chunk just when the full chunks before it fit in the region.
pub proof fn law_has_last_tasks(l: &Layout, r: bool)
    requires
        l.wf(),
        call_ensures(Layout::has_last_tasks, (l,), r),
    ensures
        r <==> {
            &&& (l.chunks_per_producer - 1) * l.task_chunk_size <= l.producer_chunk_size
            &&& (l.chunks_per_producer - 1) * l.last_prod_task_chunk_size
                <= l.last_producer_chunk_size
        },
{
}

/// Where every region has a last chunk, the last chunk and the full chunks before it make up the
/// region, in the last region and in the others; and the reserved size is the least that holds
/// every chunk.
pub proof fn law_last_chunks(l: &Layout, last: u64, last_last: u64, reserved: u64)
    requires
        l.wf(),
        call_ensures(Layout::has_last_tasks, (l,), true),
        call_ensures(Layout::last_task_chunk_size, (l,), last),
        call_ensures(Layout::last_last_prod_task_chunk_size, (l,), last_last),
        call_ensures(Layout::reserved_size, (l,), reserved),
    ensures
        (l.chunks_per_producer - 1) * l.task_chunk_size + last == l.producer_chunk_size,
        (l.chunks_per_producer - 1) * l.last_prod_task_chunk_size + last_last
            == l.last_producer_chunk_size,
        reserved >= last,
        reserved >= last_last,
        reserved >= l.last_prod_task_chunk_size,
        reserved == l.task_chunk_size,
        call_requires(Layout::last_task_chunk_size, (l,)),
        call_requires(Layout::last_last_prod_task_chunk_size, (l,)),
        call_requires(Layout::reserved_size, (l,)),
{
    lemma_regions(l.total_size as int, l.num_producers as int);
    lemma_ceil_div_monotone(
        l.last_producer_chunk_size as int,
        l.producer_chunk_size as int,
        l.chunks_per_producer as int,
    );
}

/// A file can be read just when no step of the set-up overflows, underflows or divides by zero.
/// `q` is the size of a region, `last` that of the last one, `t` and `u` the sizes of their full
/// chunks.
pub proof fn law_can_read<R>(
    total_size: u64,
    num_producers: u64,
    num_consumers: u64,
    chunks_per_producer: u64,
    num_tasks_per_producer: u64,
    q: int,
    last: int,
    t: int,
    u: int,
    r: bool,
)
    requires
        call_ensures(
            Run::<R>::can_read,
            (
                total_size,
                num_producers,
                num_consumers,
                chunks_per_producer,
                num_tasks_per_producer,
            ),
            r,
        ),
        num_producers > 0 ==> (q - 1) * num_producers < total_size <= q * num_producers,
        last == total_size - (num_producers - 1) * q,
        num_producers > 0 && chunks_per_producer > 0 ==> (t - 1) * chunks_per_producer < q <= t
            * chunks_per_producer,
        num_producers > 0 && chunks_per_producer > 0 && last >= 0 ==> (u - 1) * chunks_per_producer
            < last <= u * chunks_per_producer,
    ensures
        r <==> {
            &&& num_producers > 0
            &&& chunks_per_producer > 0
            &&& total_size + num_producers <= u64::MAX
            &&& last >= 0
            &&& q + chunks_per_producer <= u64::MAX
            &&& (chunks_per_producer - 1) * t <= q
            &&& (chunks_per_producer - 1) * u <= last
            &&& chunks_per_producer * (num_producers - 1) <= u64::MAX
            &&& num_tasks_per_producer == 0 || {
                &&& chunks_per_producer * num_producers <= u64::MAX
                &&& t <= isize::MAX
            }
            &&& num_producers <= usize::MAX
            &&& num_consumers <= usize::MAX
        },
{
    if num_producers > 0 && chunks_per_producer > 0 {
        lemma_ceil_div_unique(total_size as int, num_producers as int, q);
        lemma_ceil_div(total_size as int, num_producers as int);
        lemma_ceil_div_unique(q, chunks_per_producer as int, t);
        if last >= 0 {
            lemma_ceil_div_unique(last, chunks_per_producer as int, u);
        }
    }
}

/// A file that divides evenly can be read, by any number of consumers and with any number of
/// buffers, as long as what is added up and numbered stays in 64 bits and a chunk fits in
/// memory.
pub proof fn law_can_read_even_files<R>(
    total_size: u64,
    num_producers: u64,
    num_consumers: u64,
    chunks_per_producer: u64,
    num_tasks_per_producer: u64,
    size: int,
    r: bool,
)
    requires
        call_ensures(
            Run::<R>::can_read,
            (
                total_size,
                num_producers,
                num_consumers,
                chunks_per_producer,
                num_tasks_per_producer,
            ),
            r,
        ),
        num_producers > 0,
        chunks_per_producer > 0,
        0 <= size <= isize::MAX,
        total_size == num_producers * (chunks_per_producer * size),
        total_size + num_producers <= u64::MAX,
        chunks_per_producer * size + chunks_per_producer <= u64::MAX,
        chunks_per_producer * num_producers <= u64::MAX,
        num_producers <= usize::MAX,
        num_consumers <= usize::MAX,
    ensures
        r,
{
    let n = num_producers as int;
    let m = chunks_per_producer as int;
    let q = m * size;
    assert((q - 1) * n < n * q && n * q == q * n && n * q - (n - 1) * q == q) by (nonlinear_arith)
        requires
            n > 0,
    ;
    assert((size - 1) * m < q && q == size * m) by (nonlinear_arith)
        requires
            m > 0,
            q == m * size,
    ;
    assert((m - 1) * size <= q) by (nonlinear_arith)
        requires
            m > 0,
            size >= 0,
            q == m * size,
    ;
    assert(m * (n - 1) <= m * n) by (nonlinear_arith)
        requires
            m > 0,
    ;
    law_can_read::<R>(
        total_size,
        num_producers,
        num_consumers,
        chunks_per_producer,
        num_tasks_per_producer,
        q,
        q,
        size,
        size,
        r,
    );
}

/// The number of consumers plays no part in whether a file can be read, and neither does the
/// number of buffers, as long as there are any.
pub proof fn law_can_read_whatever_the_counts<R>(
    total_size: u64,
    num_producers: u64,
    num_consumers: u64,
    other_consumers: u64,
    chunks_per_producer: u64,
    num_tasks_per_producer: u64,
    other_tasks: u64,
    r: bool,
    s: bool,
)
    requires
        call_ensures(
            Run::<R>::can_read,
            (
                total_size,
                num_producers,
                num_consumers,
                chunks_per_producer,
                num_tasks_per_producer,
            ),
            r,
        ),
        call_ensures(
            Run::<R>::can_read,
            (total_size, num_producers, other_consumers, chunks_per_producer, other_tasks),
            s,
        ),
        num_consumers <= usize::MAX,
        other_consumers <= usize::MAX,
        num_tasks_per_producer > 0,
        other_tasks > 0,
    ensures
        r == s,
{
}

/// Each producer gets as many buffers as it may have in use, or as it has chunks, whichever is
/// less. Each is as long as a full chunk of its region, belongs to the producer that it waits
/// for, and carries the counts of the run. This takes no more than that the number of chunks can
/// be counted, and that what is reserved for a buffer fits in memory and holds a full chunk.
pub proof fn law_launch(
    num_producers: usize,
    num_consumers: usize,
    task_chunk_size: u64,
    last_producer_task_chunk_size: u64,
    chunks_per_producer: u64,
    reserved_size: usize,
    num_tasks_per_producer: u64,
    r: Vec<Vec<Message>>,
)
    requires
        call_ensures(
            launch,
            (
                num_producers,
                num_consumers,
                task_chunk_size,
                last_producer_task_chunk_size,
                chunks_per_producer,
                reserved_size,
                num_tasks_per_producer,
            ),
            r,
        ),
    ensures
        ({
            &&& chunks_per_producer * num_producers <= u64::MAX
            &&& task_chunk_size <= reserved_size
            &&& last_producer_task_chunk_size <= reserved_size
            &&& reserved_size <= isize::MAX
        }) ==> call_requires(
            launch,
            (
                num_producers,
                num_consumers,
                task_chunk_size,
                last_producer_task_chunk_size,
                chunks_per_producer,
                reserved_size,
                num_tasks_per_producer,
            ),
        ),
        r@.len() == num_producers,
        forall|i: int|
            #![trigger r@[i]]
            0 <= i < num_producers ==> {
                &&& num_tasks_per_producer <= chunks_per_producer ==> r@[i]@.len()
                    == num_tasks_per_producer
                &&& num_tasks_per_producer >= chunks_per_producer ==> r@[i]@.len()
                    == chunks_per_producer
            },
        forall|i: int, b: int|
            0 <= i < num_producers && 0 <= b < r@[i]@.len() ==> {
                &&& (#[trigger] r@[i]@[b]) matches Message::Produce(cfg, buffer)
                &&& cfg.chunk_id == 0
                &&& chunks_per_producer * num_producers <= u64::MAX ==> cfg.num_chunks
                    == chunks_per_producer * num_producers
                &&& cfg.producer_id == i
                &&& cfg.num_consumers == num_consumers
                &&& i < num_producers - 1 ==> buffer@.len() == task_chunk_size
                &&& i == num_producers - 1 ==> buffer@.len() == last_producer_task_chunk_size
                &&& forall|j: int| 0 <= j < buffer@.len() ==> #[trigger] buffer@[j] == 0
            },
{
    assert(chunks_per_producer * num_producers >= 0) by (nonlinear_arith);
    assert forall|i: int, b: int|
        0 <= i < num_producers && 0 <= b < r@[i]@.len() implies {
        &&& (#[trigger] r@[i]@[b]) matches Message::Produce(cfg, buffer)
        &&& cfg.chunk_id == 0
        &&& chunks_per_producer * num_producers <= u64::MAX ==> cfg.num_chunks
            == chunks_per_producer * num_producers
        &&& cfg.producer_id == i
        &&& cfg.num_consumers == num_consumers
        &&& i < num_producers - 1 ==> buffer@.len() == task_chunk_size
        &&& i == num_producers - 1 ==> buffer@.len() == last_producer_task_chunk_size
        &&& forall|j: int| 0 <= j < buffer@.len() ==> #[trigger] buffer@[j] == 0
    } by {
        assert(r@[i]@[b]@ is Produce);
    }
}

/// What `can_divide` lets through can be divided, and what `can_read` lets through can be
/// prepared.
pub proof fn law_checks_suffice<R>(
    total_size: u64,
    num_producers: u64,
    num_consumers: u64,
    chunks_per_producer: u64,
    num_tasks_per_producer: u64,
    divides: bool,
    reads: bool,
)
    requires
        call_ensures(Layout::can_divide, (total_size, num_producers, chunks_per_producer), divides),
        call_ensures(
            Run::<R>::can_read,
            (
                total_size,
                num_producers,
                num_consumers,
                chunks_per_producer,
                num_tasks_per_producer,
            ),
            reads,
        ),
    ensures
        divides ==> call_requires(Layout::new, (total_size, num_producers, chunks_per_producer)),
        reads ==> divides,
        reads ==> call_requires(
            Run::<R>::prepare,
            (
                total_size,
                num_producers,
                num_consumers,
                chunks_per_producer,
                num_tasks_per_producer,
            ),
        ),
{
}

/// A producer starts at the first byte of its region, which lies that many regions into the file,
/// and ends where the next region or the file ends. Its chunks are numbered after those of the
/// producers before it, and it has sent nothing.
pub proof fn law_new_producer(layout: &Layout, i: u64, r: Producer)
    requires
        layout.wf(),
        i < layout.num_producers,
        call_ensures(Producer::new, (layout, i), r),
    ensures
        r@.id == i,
        r@.num_producers == layout.num_producers,
        r@.chunk_id == layout.chunks_per_producer * i,
        r@.offset == layout.producer_chunk_size * i,
        i + 1 < layout.num_producers ==> {
            &&& r@.end_offset == layout.producer_chunk_size * (i + 1)
            &&& r@.task_chunk_size == layout.task_chunk_size
        },
        i + 1 == layout.num_producers ==> {
            &&& r@.end_offset == layout.total_size
            &&& r@.task_chunk_size == layout.last_prod_task_chunk_size
        },
        r@.prev_consumer == i,
        !r@.done,
        i < usize::MAX && layout.chunks_per_producer * i <= u64::MAX ==> call_requires(
            Producer::new,
            (layout, i),
        ),
{
    let q = layout.producer_chunk_size as int;
    let n = layout.num_producers as int;
    lemma_regions(layout.total_size as int, n);
    assert(q * i + q == q * (i + 1)) by (nonlinear_arith);
    assert(i == n - 1 ==> q * i == (n - 1) * q) by (nonlinear_arith);
}

/// There is a producer for each region, in their order: each starts where the one before it ends,
/// the first at the start of the file and the last ends with it.
pub proof fn law_build_producers(layout: &Layout, r: Vec<Producer>)
    requires
        layout.wf(),
        call_ensures(build_producers, (layout,), r),
    ensures
        r@.len() == layout.num_producers,
        r@[0]@.offset == 0,
        r@[layout.num_producers - 1]@.end_offset == layout.total_size,
        forall|i: int|
            #![trigger r@[i]]
            0 <= i < layout.num_producers ==> {
                &&& r@[i]@.id == i
                &&& r@[i]@.num_producers == layout.num_producers
                &&& r@[i]@.chunk_id == layout.chunks_per_producer * i
                &&& r@[i]@.offset == layout.producer_chunk_size * i
                &&& r@[i]@.prev_consumer == i
                &&& !r@[i]@.done
            },
        forall|i: int, j: int|
            #![trigger r@[i], r@[j]]
            0 <= i && j == i + 1 && j < layout.num_producers ==> {
                &&& r@[i]@.end_offset == r@[j]@.offset
                &&& r@[i]@.task_chunk_size == layout.task_chunk_size
            },
        r@[layout.num_producers - 1]@.task_chunk_size == layout.last_prod_task_chunk_size,
        layout.num_producers <= usize::MAX && layout.chunks_per_producer * (layout.num_producers
            - 1) <= u64::MAX ==> call_requires(build_producers, (layout,)),
{
    let q = layout.producer_chunk_size as int;
    let n = layout.num_producers as int;
    lemma_regions(layout.total_size as int, n);
    assert(q * 0 == 0);
    assert(r@[0].wf());
    assert(r@[n - 1].wf());
    assert(q * (n - 1) == (n - 1) * q) by (nonlinear_arith);
    assert forall|i: int, j: int|
        #![trigger r@[i], r@[j]]
        0 <= i && j == i + 1 && j < n implies {
        &&& r@[i]@.end_offset == r@[j]@.offset
        &&& r@[i]@.task_chunk_size == layout.task_chunk_size
    } by {
        assert(r@[i].wf() && r@[j].wf());
        assert(q * i + q == q * j) by (nonlinear_arith)
            requires
                j == i + 1,
        ;
    }
}

/// There are as many consumers as were asked for, and each of them has received nothing.
pub proof fn law_build_consumers<R>(num_consumers: u64, r: Vec<Consumer<R>>, one: Consumer<R>)
    requires
        call_ensures(build_consumers::<R>, (num_consumers,), r),
        call_ensures(Consumer::<R>::new, (), one),
    ensures
        one@.bytes == 0,
        one@.ret.len() == 0,
        one@.producers_end_signal_count == 0,
        r@.len() == num_consumers,
        forall|c: int|
            #![trigger r@[c]]
            0 <= c < num_consumers ==> {
                &&& r@[c]@.bytes == 0
                &&& r@[c]@.ret.len() == 0
                &&& r@[c]@.producers_end_signal_count == 0
            },
{
}

/// A run is prepared with the parts that the operations give one by one: the layout, its
/// producers, the consumers, and the messages that start the producers.
pub proof fn law_prepare<R>(
    total_size: u64,
    num_producers: u64,
    num_consumers: u64,
    chunks_per_producer: u64,
    num_tasks_per_producer: u64,
    layout: Layout,
    r: Run<R>,
)
    requires
        call_ensures(
            Run::<R>::can_read,
            (
                total_size,
                num_producers,
                num_consumers,
                chunks_per_producer,
                num_tasks_per_producer,
            ),
            true,
        ),
        call_ensures(
            Run::<R>::prepare,
            (
                total_size,
                num_producers,
                num_consumers,
                chunks_per_producer,
                num_tasks_per_producer,
            ),
            r,
        ),
        call_ensures(Layout::new, (total_size, num_producers, chunks_per_producer), layout),
    ensures
        r.layout == layout,
        r.reserved_size == layout.task_chunk_size,
        r.producers@.len() == num_producers,
        r.consumers@.len() == num_consumers,
        r.queues@.len() == num_producers,
        forall|i: int|
            #![trigger r.producers@[i]]
            0 <= i < num_producers ==> {
                &&& r.producers@[i].wf()
                &&& r.producers@[i]@.id == i
                &&& r.producers@[i]@.num_producers == num_producers
                &&& r.producers@[i]@.chunk_id == chunks_per_producer * i
                &&& r.producers@[i]@.offset == layout.producer_chunk_size * i
                &&& i + 1 < num_producers ==> {
                    &&& r.producers@[i]@.end_offset == layout.producer_chunk_size * i
                        + layout.producer_chunk_size
                    &&& r.producers@[i]@.task_chunk_size == layout.task_chunk_size
                }
                &&& i + 1 == num_producers ==> {
                    &&& r.producers@[i]@.end_offset == total_size
                    &&& r.producers@[i]@.task_chunk_size == layout.last_prod_task_chunk_size
                }
                &&& r.producers@[i]@.prev_consumer == i
                &&& !r.producers@[i]@.done
            },
        forall|c: int|
            #![trigger r.consumers@[c]]
            0 <= c < num_consumers ==> {
                &&& r.consumers@[c]@.bytes == 0
                &&& r.consumers@[c]@.ret.len() == 0
                &&& r.consumers@[c]@.producers_end_signal_count == 0
            },
        forall|i: int|
            #![trigger r.queues@[i]]
            0 <= i < num_producers ==> {
                &&& num_tasks_per_producer <= chunks_per_producer ==> r.queues@[i]@.len()
                    == num_tasks_per_producer
                &&& num_tasks_per_producer >= chunks_per_producer ==> r.queues@[i]@.len()
                    == chunks_per_producer
            },
        forall|i: int, b: int|
            0 <= i < num_producers && 0 <= b < r.queues@[i]@.len() ==> {
                &&& (#[trigger] r.queues@[i]@[b]) matches Message::Produce(cfg, buffer)
                &&& cfg.chunk_id == 0
                &&& cfg.num_chunks == chunks_per_producer * num_producers
                &&& cfg.producer_id == i
                &&& cfg.num_consumers == num_consumers
                &&& i + 1 < num_producers ==> buffer@.len() == layout.task_chunk_size
                &&& i + 1 == num_producers ==> buffer@.len() == layout.last_prod_task_chunk_size
                &&& forall|j: int| 0 <= j < buffer@.len() ==> #[trigger] buffer@[j] == 0
            },
{
    let n = num_producers as int;
    let q = layout.producer_chunk_size as int;
    let params = Params {
        file: Seq::new(total_size as nat, |j: int| 0u8),
        num_producers: n,
        num_consumers: num_consumers as int,
        chunks_per_producer: chunks_per_producer as int,
        num_tasks_per_producer: num_tasks_per_producer as int,
    };
    let s = System::start(params);
    assert(r.is_at(s));
    lemma_regions(total_size as int, n);
    assert forall|i: int|
        #![trigger r.producers@[i]]
        0 <= i < num_producers implies {
        &&& r.producers@[i].wf()
        &&& r.producers@[i]@.id == i
        &&& r.producers@[i]@.num_producers == num_producers
        &&& r.producers@[i]@.chunk_id == chunks_per_producer * i
        &&& r.producers@[i]@.offset == q * i
        &&& i + 1 < num_producers ==> {
            &&& r.producers@[i]@.end_offset == q * i + q
            &&& r.producers@[i]@.task_chunk_size == layout.task_chunk_size
        }
        &&& i + 1 == num_producers ==> {
            &&& r.producers@[i]@.end_offset == total_size
            &&& r.producers@[i]@.task_chunk_size == layout.last_prod_task_chunk_size
        }
        &&& r.producers@[i]@.prev_consumer == i
        &&& !r.producers@[i]@.done
    } by {
        assert(q * (n - 1) == (n - 1) * q) by (nonlinear_arith);
    }
    assert forall|i: int, b: int|
        0 <= i < num_producers && 0 <= b < r.queues@[i]@.len() implies {
        &&& (#[trigger] r.queues@[i]@[b]) matches Message::Produce(cfg, buffer)
        &&& cfg.chunk_id == 0
        &&& cfg.num_chunks == chunks_per_producer * num_producers
        &&& cfg.producer_id == i
        &&& cfg.num_consumers == num_consumers
        &&& i + 1 < num_producers ==> buffer@.len() == layout.task_chunk_size
        &&& i + 1 == num_producers ==> buffer@.len() == layout.last_prod_task_chunk_size
        &&& forall|j: int| 0 <= j < buffer@.len() ==> #[trigger] buffer@[j] == 0
    } by {
        let m = r.queues@[i]@[b];
        assert(m@ == s.producers[i].queue[b]);
        assert(chunks_per_producer * num_producers >= 0) by (nonlinear_arith);
        assert(m@ is Produce);
    }
}

} // verus!
