//! A producer: reads the region of the file that is its own, chunk by chunk, and hands the
//! chunks to the consumers in turn.
use crate::arith::{ceil_div, lemma_ceil_div, lemma_ceil_div_step, min};
use crate::layout::{lemma_regions, region_size, region_start, task_size, Layout};
use crate::message::{received_view, Buffer, Config, Message, MessageView};
use vstd::prelude::*;

verus! {

/// The consumer that comes after `previous_consumer_id`, around the circle of consumers.
pub open spec fn next_consumer(previous_consumer_id: int, num_consumers: int) -> int {
    (previous_consumer_id + 1) % num_consumers
}

/// Selects the consumer to send to, given the one that was sent to before.
pub fn select_tx(
    _i: usize,
    previous_consumer_id: usize,
    num_consumers: usize,
    _num_producers: usize,
) -> (r: usize)
    requires
        num_consumers > 0,
        previous_consumer_id < usize::MAX,
    ensures
        r == next_consumer(previous_consumer_id as int, num_consumers as int),
        r < num_consumers,
{
    (previous_consumer_id + 1) % num_consumers
}

/// What a producer knows.
pub struct ProducerState {
    pub id: int,
    pub num_producers: int,
    /// The last chunk that was sent.
    pub chunk_id: int,
    /// Where the next chunk starts.
    pub offset: int,
    /// Where the region ends.
    pub end_offset: int,
    /// The size of the full chunks of the region.
    pub task_chunk_size: int,
    /// The consumer that the last chunk went to.
    pub prev_consumer: int,
    /// The last chunk of the region has been sent.
    pub done: bool,
}

impl ProducerState {
    /// Producer `i` before its first chunk.
    pub open spec fn start(
        total_size: int,
        num_producers: int,
        chunks_per_producer: int,
        i: int,
    ) -> ProducerState {
        ProducerState {
            id: i,
            num_producers,
            chunk_id: chunks_per_producer * i,
            offset: region_start(total_size, num_producers, i),
            end_offset: region_start(total_size, num_producers, i) + region_size(
                total_size,
                num_producers,
                i,
            ),
            task_chunk_size: task_size(
                region_size(total_size, num_producers, i),
                chunks_per_producer,
            ),
            prev_consumer: i,
            done: false,
        }
    }

    /// The size of the next chunk: a full chunk, or what is left of the region.
    pub open spec fn chunk_size(self) -> int {
        min(self.task_chunk_size, self.end_offset - self.offset)
    }

    /// The number of chunks still to be sent. A producer with an empty region sends one empty
    /// chunk.
    pub open spec fn chunks_left(self) -> int {
        if self.done {
            0
        } else if self.offset == self.end_offset {
            1
        } else {
            ceil_div(self.end_offset - self.offset, self.task_chunk_size)
        }
    }

    /// The next chunk goes to the next consumer.
    pub open spec fn aim(self, num_consumers: int) -> ProducerState {
        ProducerState { prev_consumer: next_consumer(self.prev_consumer, num_consumers), ..self }
    }

    /// The next chunk has been sent.
    pub open spec fn deliver(self) -> ProducerState {
        ProducerState {
            chunk_id: self.chunk_id + 1,
            offset: self.offset + self.chunk_size(),
            done: self.offset + self.chunk_size() >= self.end_offset,
            ..self
        }
    }

    /// What arrived can be taken in: a buffer to fill has the capacity for the next chunk, there
    /// is a consumer to send it to, and the chunk can be numbered in 64 bits. `capacity` is that
    /// of the buffer; for anything else it plays no part.
    pub open spec fn accepts(self, received: Option<MessageView>, capacity: int) -> bool {
        match received {
            Some(MessageView::Produce(cfg, _)) => {
                &&& capacity >= self.chunk_size()
                &&& cfg.num_consumers > 0
                &&& self.chunk_id < u64::MAX
            },
            _ => true,
        }
    }

    /// The message that brings the last chunk that was sent.
    pub open spec fn chunk_message(self, cfg: Config, data: Seq<u8>) -> MessageView {
        MessageView::Consume(Config { chunk_id: self.chunk_id as u64, ..cfg }, data)
    }

    /// The end signal.
    pub open spec fn end_message(self) -> MessageView {
        MessageView::End(self.id as u64, self.num_producers as u64)
    }

    /// What a producer in this state, before it aims, is to read into a buffer that held `bytes`:
    /// the next chunk, for the next consumer.
    pub open spec fn reads(self, cfg: Config, bytes: Seq<u8>, task: ReadTask) -> bool {
        &&& task.cfg == cfg
        &&& task.consumer == next_consumer(self.prev_consumer, cfg.num_consumers as int)
        &&& task.consumer < cfg.num_consumers
        &&& task.offset == self.offset
        &&& task.buffer@ == resized(bytes, self.chunk_size())
    }

    /// What a producer in this state, after a delivery, sends: the chunk in `data` to the
    /// consumer that it aimed at, and after its last chunk an end signal to each consumer.
    pub open spec fn sends(self, cfg: Config, data: Seq<u8>, delivery: Delivery) -> bool {
        &&& delivery.consumer == self.prev_consumer
        &&& delivery.message@ == self.chunk_message(cfg, data)
        &&& delivery.ends@.len() == if self.done {
            cfg.num_consumers as int
        } else {
            0
        }
        &&& forall|c: int|
            0 <= c < delivery.ends@.len() ==> (#[trigger] delivery.ends@[c])@ == self.end_message()
    }

    pub open spec fn wf(self) -> bool {
        &&& 0 <= self.id < self.num_producers
        &&& 0 <= self.offset <= self.end_offset
        &&& self.offset < self.end_offset ==> self.task_chunk_size > 0
        &&& self.task_chunk_size >= 0
        &&& self.chunk_id >= 0
        &&& self.prev_consumer >= 0
        &&& self.done ==> self.offset == self.end_offset
    }
}

/// Delivering a chunk keeps a producer well formed, uses up one of the chunks that are left,
/// and is the last delivery just when one chunk was left.
pub proof fn lemma_deliver(p: ProducerState)
    requires
        p.wf(),
        !p.done,
    ensures
        p.deliver().wf(),
        p.chunks_left() >= 1,
        p.deliver().chunks_left() == p.chunks_left() - 1,
        p.deliver().done <==> p.chunks_left() == 1,
{
    if p.offset < p.end_offset {
        let left = p.end_offset - p.offset;
        let t = p.task_chunk_size;
        lemma_ceil_div(left, t);
        let q = ceil_div(left, t);
        if left <= t {
            assert(q == 1) by (nonlinear_arith)
                requires
                    (q - 1) * t < left,
                    left <= t,
                    q > 0,
                    t > 0,
            ;
        } else {
            lemma_ceil_div(left - t, t);
            lemma_ceil_div_step(left, t);
        }
    }
}

/// `buffer` cut to `len` bytes, or filled up with zeros to that length.
pub open spec fn resized(buffer: Seq<u8>, len: int) -> Seq<u8> {
    Seq::new(
        len as nat,
        |j: int|
            if j < buffer.len() {
                buffer[j]
            } else {
                0
            },
    )
}

/// A chunk to be read: into `buffer`, from `offset` on, for `consumer`.
pub struct ReadTask {
    pub cfg: Config,
    pub consumer: usize,
    pub offset: u64,
    pub buffer: Buffer,
}

/// What a producer does with what it received.
pub enum ProducerStep {
    /// Read a chunk.
    Read(ReadTask),
    /// Stop: this was not a buffer to fill, or nothing will come any more.
    Exit,
}

/// What a producer sends after it has read a chunk.
pub struct Delivery {
    /// The consumer that the chunk goes to.
    pub consumer: usize,
    /// The chunk.
    pub message: Message,
    /// After the last chunk, one end signal for each consumer, in their order; else nothing.
    pub ends: Vec<Message>,
}

/// A producer: its place in its region, and the consumer whose turn it was.
pub struct Producer {
    id: u64,
    num_producers: u64,
    chunk_id: u64,
    offset: u64,
    end_offset: u64,
    task_chunk_size: u64,
    prev_consumer: usize,
    done: bool,
}

impl View for Producer {
    type V = ProducerState;

    closed spec fn view(&self) -> ProducerState {
        ProducerState {
            id: self.id as int,
            num_producers: self.num_producers as int,
            chunk_id: self.chunk_id as int,
            offset: self.offset as int,
            end_offset: self.end_offset as int,
            task_chunk_size: self.task_chunk_size as int,
            prev_consumer: self.prev_consumer as int,
            done: self.done,
        }
    }
}

impl Producer {
    /// The producer is inside its region, and the next consumer can be counted.
    pub open spec fn wf(self) -> bool {
        &&& self@.wf()
        &&& self@.prev_consumer < usize::MAX
    }

    /// Producer `i` of the layout, before its first chunk.
    pub fn new(layout: &Layout, i: u64) -> (r: Producer)
        requires
            layout.wf(),
            i < layout.num_producers,
            i < usize::MAX,
            layout.chunks_per_producer * i <= u64::MAX,
        ensures
            r.wf(),
            r@ == ProducerState::start(
                layout.total_size as int,
                layout.num_producers as int,
                layout.chunks_per_producer as int,
                i as int,
            ),
    {
        proof {
            lemma_start(
                layout.total_size as int,
                layout.num_producers as int,
                layout.chunks_per_producer as int,
                i as int,
            );
        }
        let chunk_id: u64 = layout.chunks_per_producer * i;
        let offset: u64 = layout.producer_chunk_size * i;
        let is_last: bool = i == layout.num_producers - 1;
        let end_offset: u64 = if !is_last {
            offset + layout.producer_chunk_size
        } else {
            offset + layout.last_producer_chunk_size
        };
        let task_chunk_size: u64 = if !is_last {
            layout.task_chunk_size
        } else {
            layout.last_prod_task_chunk_size
        };
        Producer {
            id: i,
            num_producers: layout.num_producers,
            chunk_id,
            offset,
            end_offset,
            task_chunk_size,
            prev_consumer: i as usize,
            done: false,
        }
    }

    /// Tells whether what arrived can be taken in. `capacity` is that of the buffer, if one
    /// arrived.
    pub fn accepts(&self, received: &Option<Message>, capacity: usize) -> (r: bool)
        requires
            self.wf(),
        ensures
            r == self@.accepts(received_view(*received), capacity as int),
    {
        match received {
            Some(Message::Produce(cfg, _)) => {
                capacity as u64 >= self.chunk_size() && cfg.num_consumers > 0 && self.chunk_id
                    < u64::MAX
            },
            _ => true,
        }
    }

    /// The size of the next chunk.
    fn chunk_size(&self) -> (r: u64)
        requires
            self.wf(),
        ensures
            r == self@.chunk_size(),
    {
        let left: u64 = self.end_offset - self.offset;
        if self.task_chunk_size <= left {
            self.task_chunk_size
        } else {
            left
        }
    }

    /// Takes in what arrived on the producer's channel; `None` stands for a closed channel. A
    /// buffer to fill is set to the size of the next chunk and gets the next consumer;
    /// anything else ends the producer. `capacity` is that of the buffer, which must have room
    /// for the chunk: a buffer never grows.
    pub fn receive(&mut self, received: Option<Message>, capacity: usize) -> (r: ProducerStep)
        requires
            old(self).wf(),
            !old(self)@.done,
            old(self)@.accepts(received_view(received), capacity as int),
        ensures
            final(self).wf(),
            match received {
                Some(Message::Produce(cfg, buffer)) => {
                    &&& final(self)@ == old(self)@.aim(cfg.num_consumers as int)
                    &&& r matches ProducerStep::Read(task) && old(self)@.reads(cfg, buffer@, task)
                },
                _ => r is Exit && *final(self) == *old(self),
            },
    {
        match received {
            Some(Message::Produce(cfg, buffer)) => {
                let chunk_size: u64 = self.chunk_size();
                let mut buffer = buffer;
                let ghost before = buffer@;
                buffer.resize(chunk_size as usize, 0);
                assert(buffer@ =~= resized(before, chunk_size as int));
                let consumer: usize = select_tx(
                    self.id as usize,
                    self.prev_consumer,
                    cfg.num_consumers,
                    self.num_producers as usize,
                );
                self.prev_consumer = consumer;
                ProducerStep::Read(ReadTask { cfg, consumer, offset: self.offset, buffer })
            },
            _ => ProducerStep::Exit,
        }
    }

    /// Takes in the chunk that was read into `buffer`, and says what to send.
    pub fn deliver(&mut self, cfg: Config, buffer: Buffer) -> (r: Delivery)
        requires
            old(self).wf(),
            !old(self)@.done,
            old(self)@.chunk_id < u64::MAX,
            buffer@.len() == old(self)@.chunk_size(),
        ensures
            final(self).wf(),
            final(self)@ == old(self)@.deliver(),
            final(self)@.sends(cfg, buffer@, r),
    {
        proof {
            lemma_deliver(self@);
        }
        self.chunk_id = self.chunk_id + 1;
        let cfg = Config { chunk_id: self.chunk_id, ..cfg };
        self.offset = self.offset + buffer.len() as u64;
        let consumer: usize = self.prev_consumer;
        let message = Message::Consume(cfg, buffer);
        let mut ends: Vec<Message> = Vec::new();
        if self.offset >= self.end_offset {
            self.done = true;
            let mut c: usize = 0;
            while c < cfg.num_consumers
                invariant
                    c <= cfg.num_consumers,
                    ends@.len() == c,
                    forall|k: int|
                        0 <= k < c ==> (#[trigger] ends@[k])@ == MessageView::End(
                            self.id,
                            self.num_producers,
                        ),
                decreases cfg.num_consumers - c,
            {
                ends.push(Message::End(self.id, self.num_producers));
                c += 1;
            }
        }
        Delivery { consumer, message, ends }
    }

    /// Tells whether the last chunk has been sent.
    pub fn is_done(&self) -> (r: bool)
        ensures
            r == self@.done,
    {
        self.done
    }
}

/// A producer starts out well formed, inside the file, with no more than `chunks_per_producer`
/// chunks to send.
pub proof fn lemma_start(total_size: int, num_producers: int, chunks_per_producer: int, i: int)
    requires
        total_size >= 0,
        chunks_per_producer > 0,
        crate::layout::last_producer_chunk_size(total_size, num_producers) >= 0,
        0 <= i < num_producers,
    ensures
        ({
            let p = ProducerState::start(total_size, num_producers, chunks_per_producer, i);
            &&& p.wf()
            &&& p.end_offset <= total_size
            &&& 1 <= p.chunks_left() <= chunks_per_producer
        }),
{
    let p = ProducerState::start(total_size, num_producers, chunks_per_producer, i);
    let size = region_size(total_size, num_producers, i);
    let q = crate::layout::producer_chunk_size(total_size, num_producers);
    lemma_regions(total_size, num_producers);
    lemma_ceil_div(size, chunks_per_producer);
    assert(0 <= q * i && q * i + q <= q * num_producers) by (nonlinear_arith)
        requires
            0 <= i < num_producers,
            q >= 0,
    ;
    assert(i < num_producers - 1 ==> q * i + q <= (num_producers - 1) * q) by (nonlinear_arith)
        requires
            q >= 0,
    ;
    assert(i == num_producers - 1 ==> q * i == (num_producers - 1) * q) by (nonlinear_arith);
    assert(0 <= chunks_per_producer * i) by (nonlinear_arith)
        requires
            0 <= i,
            chunks_per_producer > 0,
    ;
    if size > 0 {
        let t = p.task_chunk_size;
        let k = ceil_div(size, t);
        lemma_ceil_div(size, t);
        assert(k <= chunks_per_producer) by (nonlinear_arith)
            requires
                (k - 1) * t < size,
                size <= t * chunks_per_producer,
                t > 0,
        ;
    }
}

} // verus!
