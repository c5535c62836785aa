//! A whole run: all producers and consumers, the messages between them, and every order in
//! which they can take their steps.
use crate::launch::{buffers_per_producer, launch_message};
use crate::layout::last_producer_chunk_size;
use crate::message::{Config, MessageView};
use crate::producer::ProducerState;
use vstd::prelude::*;

verus! {

/// What a run is about: the file, and the counts that the user chose.
pub struct Params {
    pub file: Seq<u8>,
    pub num_producers: int,
    pub num_consumers: int,
    pub chunks_per_producer: int,
    pub num_tasks_per_producer: int,
}

impl Params {
    /// The file can be divided among the producers, there are consumers, and chunks, producers
    /// and consumers can be numbered in machine integers.
    pub open spec fn wf(self) -> bool {
        &&& self.num_producers > 0
        &&& 0 < self.num_consumers <= usize::MAX
        &&& self.chunks_per_producer > 0
        &&& self.num_tasks_per_producer >= 0
        &&& last_producer_chunk_size(self.file.len() as int, self.num_producers) >= 0
        &&& self.chunks_per_producer * self.num_producers <= u64::MAX
    }

    pub open spec fn start(self, i: int) -> ProducerState {
        ProducerState::start(
            self.file.len() as int,
            self.num_producers,
            self.chunks_per_producer,
            i,
        )
    }

    pub open spec fn buffers(self) -> int {
        buffers_per_producer(self.chunks_per_producer, self.num_tasks_per_producer)
    }

    /// The consumer that gets chunk `k` of producer `i`: the producers start each at the
    /// consumer after the one with their own number, and go round.
    pub open spec fn target(self, i: int, k: int) -> int {
        (i + 1 + k) % self.num_consumers
    }

    /// The message that brings chunk `k` of producer `i`.
    pub open spec fn chunk_message(self, i: int, k: int, data: Seq<u8>) -> MessageView {
        MessageView::Consume(
            Config {
                chunk_id: (self.chunks_per_producer * i + k + 1) as u64,
                num_chunks: (self.chunks_per_producer * self.num_producers) as u64,
                producer_id: i as u64,
                num_consumers: self.num_consumers as usize,
            },
            data,
        )
    }

    pub open spec fn end_message(self, i: int) -> MessageView {
        MessageView::End(i as u64, self.num_producers as u64)
    }
}

/// A producer, the channel it receives from, and how many of its end signals it has sent.
pub struct ProducerNode {
    pub state: ProducerState,
    pub queue: Seq<MessageView>,
    pub ends_due: int,
    pub ends_sent: int,
    /// The chunks that it has read, in order.
    pub loads: Seq<Seq<u8>>,
    /// It found its channel closed.
    pub stopped: bool,
}

impl ProducerNode {
    /// It has sent its last chunk and all its end signals.
    pub open spec fn ended(self) -> bool {
        self.state.done && self.ends_sent >= self.ends_due
    }

    pub open spec fn exited(self) -> bool {
        self.stopped || self.ended()
    }
}

/// A consumer, the channel it receives from, and what it has received.
pub struct ConsumerNode {
    pub log: Seq<MessageView>,
    pub queue: Seq<MessageView>,
    /// It found its channel closed.
    pub stopped: bool,
}

impl ConsumerNode {
    /// Everything that was ever sent to the consumer, in the order in which it was sent.
    pub open spec fn sent(self) -> Seq<MessageView> {
        self.log + self.queue
    }

    pub open spec fn exited(self) -> bool {
        self.stopped || self.ended()
    }

    /// The last message was the end signal that the consumer was waiting for.
    pub open spec fn ended(self) -> bool {
        self.log.len() > 0 && match self.log.last() {
            MessageView::End(_, num_producers) => ends_of(self.log) >= num_producers,
            _ => false,
        }
    }
}

/// The number of end signals among messages.
pub open spec fn ends_of(messages: Seq<MessageView>) -> int
    decreases messages.len(),
{
    if messages.len() == 0 {
        0
    } else {
        ends_of(messages.drop_last()) + if messages.last() is End {
            1int
        } else {
            0
        }
    }
}

/// The number of bytes in the chunks among messages.
pub open spec fn bytes_of(messages: Seq<MessageView>) -> int
    decreases messages.len(),
{
    if messages.len() == 0 {
        0
    } else {
        bytes_of(messages.drop_last()) + match messages.last() {
            MessageView::Consume(_, data) => data.len() as int,
            _ => 0,
        }
    }
}

/// The producer that a message for a consumer comes from.
pub open spec fn source(m: MessageView) -> int {
    match m {
        MessageView::Consume(cfg, _) => cfg.producer_id as int,
        MessageView::Produce(cfg, _) => cfg.producer_id as int,
        MessageView::End(id, _) => id as int,
    }
}

/// The messages that come from producer `i`, in their order.
pub open spec fn from_producer(messages: Seq<MessageView>, i: int) -> Seq<MessageView>
    decreases messages.len(),
{
    if messages.len() == 0 {
        Seq::empty()
    } else if source(messages.last()) == i {
        from_producer(messages.drop_last(), i).push(messages.last())
    } else {
        from_producer(messages.drop_last(), i)
    }
}

/// The number of buffers of producer `i` among messages to a consumer.
pub open spec fn buffers_held(messages: Seq<MessageView>, i: int) -> int
    decreases messages.len(),
{
    if messages.len() == 0 {
        0
    } else {
        buffers_held(messages.drop_last(), i) + if messages.last() is Consume && source(
            messages.last(),
        ) == i {
            1int
        } else {
            0
        }
    }
}

/// All producers and consumers of a run.
pub struct System {
    pub producers: Seq<ProducerNode>,
    pub consumers: Seq<ConsumerNode>,
}

/// What can happen next. A producer or consumer that receives is not seen by the others until
/// it sends, so a step runs from a receive to the send that follows it. Reading the file may
/// give any bytes: the step says which.
pub enum Step {
    /// The producer receives a buffer, reads the given chunk into it, and sends it on.
    Deliver(int, Seq<u8>),
    /// The producer sends its next end signal.
    SignalEnd(int),
    /// The consumer takes in a message, and returns the buffer if there is one.
    Receive(int),
    /// The producer finds its channel closed, and stops.
    StopProducer(int),
    /// The consumer finds its channel closed, and stops.
    StopConsumer(int),
}

impl System {
    pub open spec fn start(params: Params) -> System {
        System {
            producers: Seq::new(
                params.num_producers as nat,
                |i: int|
                    ProducerNode {
                        state: params.start(i),
                        queue: Seq::new(
                            params.buffers() as nat,
                            |b: int|
                                launch_message(
                                    params.num_producers,
                                    params.num_consumers as usize,
                                    params.chunks_per_producer,
                                    params.start(i).task_chunk_size,
                                    i,
                                ),
                        ),
                        ends_due: 0,
                        ends_sent: 0,
                        loads: Seq::empty(),
                        stopped: false,
                    },
            ),
            consumers: Seq::new(
                params.num_consumers as nat,
                |c: int| ConsumerNode { log: Seq::empty(), queue: Seq::empty(), stopped: false },
            ),
        }
    }

    /// Sends a message to a consumer.
    pub open spec fn send(self, c: int, m: MessageView) -> System {
        System {
            consumers: self.consumers.update(
                c,
                ConsumerNode { queue: self.consumers[c].queue.push(m), ..self.consumers[c] },
            ),
            ..self
        }
    }

    /// Sends a buffer back to a producer. One that has exited does not get it.
    pub open spec fn send_back(self, i: int, m: MessageView) -> System {
        if self.producers[i].exited() {
            self
        } else {
            System {
                producers: self.producers.update(
                    i,
                    ProducerNode { queue: self.producers[i].queue.push(m), ..self.producers[i] },
                ),
                ..self
            }
        }
    }

    pub open spec fn can_deliver(self, i: int, data: Seq<u8>) -> bool {
        &&& 0 <= i < self.producers.len()
        &&& !self.producers[i].exited()
        &&& !self.producers[i].state.done
        &&& self.producers[i].queue.len() > 0
        &&& self.producers[i].queue[0] is Produce
        &&& data.len() == self.producers[i].state.chunk_size()
    }

    /// The first buffer that waits for the producer.
    pub open spec fn next_config(self, i: int) -> Config {
        self.producers[i].queue[0]->Produce_0
    }

    pub open spec fn deliver(self, i: int, data: Seq<u8>) -> System {
        let node = self.producers[i];
        let cfg = self.next_config(i);
        let aimed = node.state.aim(cfg.num_consumers as int);
        let next = aimed.deliver();
        let sent = self.send(aimed.prev_consumer, next.chunk_message(cfg, data));
        System {
            producers: self.producers.update(
                i,
                ProducerNode {
                    state: next,
                    queue: node.queue.drop_first(),
                    ends_due: if next.done {
                        cfg.num_consumers as int
                    } else {
                        0
                    },
                    ends_sent: 0,
                    loads: node.loads.push(data),
                    stopped: false,
                },
            ),
            ..sent
        }
    }

    pub open spec fn can_signal_end(self, i: int) -> bool {
        &&& 0 <= i < self.producers.len()
        &&& !self.producers[i].exited()
        &&& self.producers[i].state.done
        &&& self.producers[i].ends_sent < self.producers[i].ends_due
    }

    pub open spec fn signal_end(self, i: int) -> System {
        let node = self.producers[i];
        let sent = self.send(node.ends_sent, node.state.end_message());
        let next = ProducerNode { ends_sent: node.ends_sent + 1, ..node };
        System {
            producers: self.producers.update(
                i,
                if next.exited() {
                    ProducerNode { queue: Seq::empty(), ..next }
                } else {
                    next
                },
            ),
            ..sent
        }
    }

    pub open spec fn can_receive(self, c: int) -> bool {
        &&& 0 <= c < self.consumers.len()
        &&& !self.consumers[c].exited()
        &&& self.consumers[c].queue.len() > 0
        &&& !(self.consumers[c].queue[0] is Produce)
    }

    pub open spec fn receive(self, c: int) -> System {
        let node = self.consumers[c];
        let message = node.queue[0];
        let taken = System {
            consumers: self.consumers.update(
                c,
                ConsumerNode {
                    log: node.log.push(message),
                    queue: node.queue.drop_first(),
                    ..node
                },
            ),
            ..self
        };
        match message {
            MessageView::Consume(cfg, data) => taken.send_back(
                cfg.producer_id as int,
                MessageView::Produce(cfg, data),
            ),
            _ => taken,
        }
    }

    /// Nothing can come to producer `i` any more: it has no buffer waiting, and no consumer will
    /// get one to return.
    pub open spec fn producer_closed(self, i: int) -> bool {
        &&& self.producers[i].queue.len() == 0
        &&& forall|c: int, b: int|
            0 <= c < self.consumers.len() && 0 <= b < self.consumers[c].queue.len() ==> !((
            #[trigger] self.consumers[c].queue[b]) is Consume && source(
                self.consumers[c].queue[b],
            ) == i)
    }

    /// Nothing can come to a consumer any more, but for what waits for it: no buffer waits for a
    /// producer or a consumer, and no producer is signalling its end. (The channels to the
    /// consumers travel with the buffers, and a producer holds them while it sends.)
    pub open spec fn consumers_closed(self) -> bool {
        &&& forall|i: int|
            0 <= i < self.producers.len() ==> {
                &&& (#[trigger] self.producers[i]).queue.len() == 0
                &&& !self.can_signal_end(i)
            }
        &&& forall|c: int, b: int|
            0 <= c < self.consumers.len() && 0 <= b < self.consumers[c].queue.len() ==> !((
            #[trigger] self.consumers[c].queue[b]) is Consume)
    }

    pub open spec fn can_stop_producer(self, i: int) -> bool {
        &&& 0 <= i < self.producers.len()
        &&& !self.producers[i].exited()
        &&& !self.producers[i].state.done
        &&& self.producer_closed(i)
    }

    pub open spec fn stop_producer(self, i: int) -> System {
        System {
            producers: self.producers.update(
                i,
                ProducerNode { stopped: true, ..self.producers[i] },
            ),
            ..self
        }
    }

    pub open spec fn can_stop_consumer(self, c: int) -> bool {
        &&& 0 <= c < self.consumers.len()
        &&& !self.consumers[c].exited()
        &&& self.consumers[c].queue.len() == 0
        &&& self.consumers_closed()
    }

    pub open spec fn stop_consumer(self, c: int) -> System {
        System {
            consumers: self.consumers.update(
                c,
                ConsumerNode { stopped: true, ..self.consumers[c] },
            ),
            ..self
        }
    }

    pub open spec fn can(self, step: Step) -> bool {
        match step {
            Step::Deliver(i, data) => self.can_deliver(i, data),
            Step::SignalEnd(i) => self.can_signal_end(i),
            Step::Receive(c) => self.can_receive(c),
            Step::StopProducer(i) => self.can_stop_producer(i),
            Step::StopConsumer(c) => self.can_stop_consumer(c),
        }
    }

    pub open spec fn after(self, step: Step) -> System {
        match step {
            Step::Deliver(i, data) => self.deliver(i, data),
            Step::SignalEnd(i) => self.signal_end(i),
            Step::Receive(c) => self.receive(c),
            Step::StopProducer(i) => self.stop_producer(i),
            Step::StopConsumer(c) => self.stop_consumer(c),
        }
    }

    /// The steps can be taken one after the other.
    pub open spec fn can_all(self, steps: Seq<Step>) -> bool
        decreases steps.len(),
    {
        steps.len() == 0 || {
            &&& self.can_all(steps.drop_last())
            &&& self.after_all(steps.drop_last()).can(steps.last())
        }
    }

    pub open spec fn after_all(self, steps: Seq<Step>) -> System
        decreases steps.len(),
    {
        if steps.len() == 0 {
            self
        } else {
            self.after_all(steps.drop_last()).after(steps.last())
        }
    }

    /// Every consumer has exited.
    pub open spec fn finished(self) -> bool {
        forall|c: int| 0 <= c < self.consumers.len() ==> (#[trigger] self.consumers[c]).exited()
    }
}

} // verus!
