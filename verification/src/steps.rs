//! What a producer and a consumer do is what the steps of a run say.
use crate::consumer::{answers, takes_in, ConsumerState, ConsumerStep, FnMove};
use crate::laws::{accounts_for, law_consumer_accounts};
use crate::message::{Config, MessageView};
use crate::producer::{Delivery, ProducerState, ReadTask};
use crate::system::{ConsumerNode, ProducerNode, System};
use vstd::prelude::*;

verus! {

/// A producer that receives the buffer that waits for it, reads a chunk into it and delivers the
/// chunk, makes the step `Deliver`: its own state, the message that goes out and the consumer
/// that it goes to, and the end signals that are due, are those of the step; and nothing else
/// changes.
///
/// `received` and `delivered` are the producer's states after `Producer::receive` and
/// `Producer::deliver`, `task` and `delivery` what the two return.
pub proof fn law_producer_delivers(
    s: System,
    i: int,
    cfg: Config,
    waiting: Seq<u8>,
    received: ProducerState,
    task: ReadTask,
    data: Seq<u8>,
    delivered: ProducerState,
    delivery: Delivery,
)
    requires
        0 <= i < s.producers.len(),
        !s.producers[i].exited(),
        !s.producers[i].state.done,
        s.producers[i].queue.len() > 0,
        s.producers[i].queue[0] == MessageView::Produce(cfg, waiting),
        received == s.producers[i].state.aim(cfg.num_consumers as int),
        s.producers[i].state.reads(cfg, waiting, task),
        data.len() == received.chunk_size(),
        delivered == received.deliver(),
        delivered.sends(task.cfg, data, delivery),
    ensures
        s.can_deliver(i, data),
        s.deliver(i, data).consumers == s.send(
            delivery.consumer as int,
            delivery.message@,
        ).consumers,
        delivery.consumer == task.consumer,
        s.deliver(i, data).producers == s.producers.update(
            i,
            (ProducerNode {
                state: delivered,
                queue: s.producers[i].queue.drop_first(),
                ends_due: delivery.ends@.len() as int,
                ends_sent: 0,
                loads: s.producers[i].loads.push(data),
                stopped: false,
            }),
        ),
{
}

/// The end signals of a delivery are those that the steps `SignalEnd` send, one to each consumer
/// in turn.
pub proof fn law_producer_signals_end(
    s: System,
    i: int,
    cfg: Config,
    data: Seq<u8>,
    delivery: Delivery,
)
    requires
        s.can_signal_end(i),
        s.producers[i].state.sends(cfg, data, delivery),
        s.producers[i].ends_due == delivery.ends@.len(),
        0 <= s.producers[i].ends_sent,
    ensures
        s.signal_end(i).consumers == s.send(
            s.producers[i].ends_sent,
            delivery.ends@[s.producers[i].ends_sent]@,
        ).consumers,
        s.signal_end(i).producers[i].state == s.producers[i].state,
        s.signal_end(i).producers[i].ends_sent == s.producers[i].ends_sent + 1,
{
    assert(delivery.ends@[s.producers[i].ends_sent]@ == s.producers[i].state.end_message());
}

/// A consumer that takes in the message that waits for it makes the step `Receive`: it accounts
/// for what the step adds to what it has received, a buffer goes back to the producer that the
/// step names, and it stops just when the step makes it exit.
///
/// `before` and `after` are the consumer's states before and after `Consumer::receive`, `answer`
/// what it returns.
pub proof fn law_consumer_receives<T, R, F: Fn(&[u8], &T, u64, u64) -> R>(
    s: System,
    c: int,
    before: ConsumerState<R>,
    f: FnMove<F>,
    data: &T,
    after: ConsumerState<R>,
    answer: ConsumerStep,
)
    requires
        s.can_receive(c),
        accounts_for(before, f, data, s.consumers[c].log),
        takes_in(before, f, data, s.consumers[c].queue[0], after),
        answers(s.consumers[c].queue[0], after, answer),
    ensures
        accounts_for(after, f, data, s.receive(c).consumers[c].log),
        s.receive(c).consumers == s.consumers.update(
            c,
            (ConsumerNode {
                log: s.consumers[c].log.push(s.consumers[c].queue[0]),
                queue: s.consumers[c].queue.drop_first(),
                stopped: s.consumers[c].stopped,
            }),
        ),
        s.receive(c).producers == match answer {
            ConsumerStep::Return(producer_id, message) => s.send_back(
                producer_id as int,
                message@,
            ).producers,
            _ => s.producers,
        },
        s.receive(c).consumers[c].exited() <==> (answer matches ConsumerStep::EndSignal(signal)
            && signal.is_last),
{
    let m = s.consumers[c].queue[0];
    let log = s.consumers[c].log;
    law_consumer_accounts(before, after, f, data, log, m);
    assert(s.receive(c).consumers[c].log == log.push(m));
    assert(log.push(m).last() == m);
}

} // verus!
