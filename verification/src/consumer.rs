//! A consumer: runs a function on every chunk that it receives, and sends the buffer back.
use crate::message::{received_view, Config, Message, MessageView};
use std::sync::Arc;
use vstd::prelude::*;

verus! {

/// A function that several consumers share.
pub struct FnMove<F> {
    pub f: Arc<F>,
}

impl<F> FnMove<F> {
    /// Calls the function on a chunk.
    pub fn call<T, R>(&self, buf: &[u8], t: &T, a: u64, b: u64) -> (r: R) where
        F: Fn(&[u8], &T, u64, u64) -> R,

        requires
            call_requires(*self.f, (buf, t, a, b)),
        ensures
            call_ensures(*self.f, (buf, t, a, b), r),
    {
        (self.f)(buf, t, a, b)
    }
}

/// What a consumer knows.
pub struct ConsumerState<R> {
    /// The number of bytes that it received.
    pub bytes: int,
    /// The chunks that it received, each with what the function gave for it.
    pub ret: Seq<(u64, R)>,
    /// The number of end signals that it received.
    pub producers_end_signal_count: int,
}

impl<R> ConsumerState<R> {
    /// What arrived can be taken in: it is not a buffer to fill, and the counts stay in range.
    pub open spec fn accepts(self, received: Option<MessageView>) -> bool {
        match received {
            None => true,
            Some(MessageView::Consume(_, bytes)) => self.bytes + bytes.len() <= usize::MAX,
            Some(MessageView::Produce(_, _)) => false,
            Some(MessageView::End(_, _)) => self.producers_end_signal_count < u64::MAX,
        }
    }

    /// Nothing has been received.
    pub open spec fn start() -> ConsumerState<R> {
        ConsumerState { bytes: 0, ret: Seq::empty(), producers_end_signal_count: 0 }
    }

    /// The chunk `chunk_id` of `len` bytes has been received, and the function gave `r`.
    pub open spec fn consume(self, chunk_id: u64, len: int, r: R) -> ConsumerState<R> {
        ConsumerState { bytes: self.bytes + len, ret: self.ret.push((chunk_id, r)), ..self }
    }

    /// An end signal has been received.
    pub open spec fn end_signal(self) -> ConsumerState<R> {
        ConsumerState { producers_end_signal_count: self.producers_end_signal_count + 1, ..self }
    }
}

/// `value` is a result that the function can give for the chunk in `bytes`.
pub open spec fn can_give<T, R, F: Fn(&[u8], &T, u64, u64) -> R>(
    f: FnMove<F>,
    data: &T,
    cfg: Config,
    bytes: Seq<u8>,
    value: R,
) -> bool {
    exists|buf: &[u8]|
        buf@ == bytes && #[trigger] call_ensures(
            *f.f,
            (buf, data, cfg.chunk_id, cfg.num_chunks),
            value,
        )
}

/// Taking in a chunk makes `after` of `before`: its bytes are counted, and the function has been
/// run on it.
pub open spec fn takes_in_chunk<T, R, F: Fn(&[u8], &T, u64, u64) -> R>(
    before: ConsumerState<R>,
    f: FnMove<F>,
    data: &T,
    cfg: Config,
    bytes: Seq<u8>,
    after: ConsumerState<R>,
) -> bool {
    exists|value: R|
        {
            &&& #[trigger] can_give(f, data, cfg, bytes, value)
            &&& after == before.consume(cfg.chunk_id, bytes.len() as int, value)
        }
}

/// Taking in message `m` makes `after` of `before`.
pub open spec fn takes_in<T, R, F: Fn(&[u8], &T, u64, u64) -> R>(
    before: ConsumerState<R>,
    f: FnMove<F>,
    data: &T,
    m: MessageView,
    after: ConsumerState<R>,
) -> bool {
    match m {
        MessageView::Consume(cfg, bytes) => takes_in_chunk(before, f, data, cfg, bytes, after),
        MessageView::Produce(_, _) => false,
        MessageView::End(_, _) => after == before.end_signal(),
    }
}

/// What a consumer does with what it received.
pub enum ConsumerStep {
    /// Stop: the channel is closed, and nothing will come any more.
    Exit,
    /// Send the message, a buffer to fill, to the producer.
    Return(u64, Message),
    /// An end signal came in.
    EndSignal(EndSignal),
}

/// The end signal of a producer.
#[derive(Clone, Copy, Debug)]
pub struct EndSignal {
    pub producer_id: u64,
    /// The number of end signals up to this one.
    pub count: u64,
    pub num_producers: u64,
    /// Every producer has signalled its end, so the consumer stops.
    pub is_last: bool,
}

/// What a consumer in the state `after` does with the message that brought it there: it returns
/// the buffer of a chunk to its producer, and stops when it has as many end signals as an end
/// signal says there are producers.
pub open spec fn answers<R>(m: MessageView, after: ConsumerState<R>, step: ConsumerStep) -> bool {
    match m {
        MessageView::Consume(cfg, bytes) => {
            step matches ConsumerStep::Return(producer_id, message) && {
                &&& producer_id == cfg.producer_id
                &&& message@ == MessageView::Produce(cfg, bytes)
            }
        },
        MessageView::Produce(_, _) => false,
        MessageView::End(producer_id, num_producers) => {
            step matches ConsumerStep::EndSignal(signal) && {
                &&& signal.producer_id == producer_id
                &&& signal.count == after.producers_end_signal_count
                &&& signal.num_producers == num_producers
                &&& signal.is_last <==> after.producers_end_signal_count >= num_producers
            }
        },
    }
}

/// A consumer: the counts and the results of what it has received.
pub struct Consumer<R> {
    bytes: usize,
    ret: Vec<(u64, R)>,
    producers_end_signal_count: u64,
}

impl<R> View for Consumer<R> {
    type V = ConsumerState<R>;

    closed spec fn view(&self) -> ConsumerState<R> {
        ConsumerState {
            bytes: self.bytes as int,
            ret: self.ret@,
            producers_end_signal_count: self.producers_end_signal_count as int,
        }
    }
}

impl<R> Consumer<R> {
    /// A consumer that has received nothing.
    pub fn new() -> (r: Consumer<R>)
        ensures
            r@ == ConsumerState::<R>::start(),
    {
        Consumer { bytes: 0, ret: Vec::new(), producers_end_signal_count: 0 }
    }

    /// Tells whether what arrived can be taken in.
    pub fn accepts(&self, received: &Option<Message>) -> (r: bool)
        ensures
            r == self@.accepts(received_view(*received)),
    {
        match received {
            None => true,
            Some(Message::Consume(_, buffer)) => buffer.len() <= usize::MAX - self.bytes,
            Some(Message::Produce(_, _)) => false,
            Some(Message::End(_, _)) => self.producers_end_signal_count < u64::MAX,
        }
    }

    /// Takes in what arrived on the consumer's channel; `None` stands for a closed channel. The
    /// channels to a consumer live in the messages, and die when producers finish; a consumer
    /// that finds its channel closed exits, as it does after the end signal of the last producer.
    /// A buffer to fill must not arrive here.
    pub fn receive<T, F>(&mut self, f: &FnMove<F>, data: &T, received: Option<Message>) -> (r:
        ConsumerStep) where F: Fn(&[u8], &T, u64, u64) -> R
        requires
            old(self)@.accepts(received_view(received)),
            received matches Some(Message::Consume(cfg, buffer)) ==> forall|buf: &[u8]|
                buf@ == buffer@ ==> #[trigger] call_requires(
                    *f.f,
                    (buf, data, cfg.chunk_id, cfg.num_chunks),
                ),
        ensures
            received matches Some(m) ==> takes_in(old(self)@, *f, data, m@, final(self)@),
            received matches Some(m) ==> answers(m@, final(self)@, r),
            received is None ==> r is Exit && *final(self) == *old(self),
    {
        match received {
            Some(Message::Consume(cfg, buffer)) => {
                self.bytes = self.bytes + buffer.len();
                let value = f.call(buffer.as_slice(), data, cfg.chunk_id, cfg.num_chunks);
                let ghost given = value;
                self.ret.push((cfg.chunk_id, value));
                assert(can_give(*f, data, cfg, buffer@, given));
                assert(self@ == old(self)@.consume(cfg.chunk_id, buffer@.len() as int, given));
                ConsumerStep::Return(cfg.producer_id, Message::Produce(cfg, buffer))
            },
            Some(Message::End(producer_id, num_producers)) => {
                self.producers_end_signal_count = self.producers_end_signal_count + 1;
                ConsumerStep::EndSignal(
                    EndSignal {
                        producer_id,
                        count: self.producers_end_signal_count,
                        num_producers,
                        is_last: self.producers_end_signal_count >= num_producers,
                    },
                )
            },
            _ => ConsumerStep::Exit,
        }
    }

    /// The number of bytes received, and the results.
    pub fn finish(self) -> (r: (usize, Vec<(u64, R)>))
        ensures
            r.0 == self@.bytes,
            r.1@ == self@.ret,
    {
        (self.bytes, self.ret)
    }
}

} // verus!
