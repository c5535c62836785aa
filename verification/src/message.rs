//! What producers and consumers send to each other.
use vstd::prelude::*;

verus! {

pub type Buffer = Vec<u8>;

pub type ProducerId = u64;

pub type NumProducers = u64;

pub type ProducerConfig = Config;

pub type ConsumerConfig = Config;

/// What travels with a buffer: the chunk that it holds, and the two ends it moves between.
#[derive(Clone, Copy, Debug)]
pub struct Config {
    /// The chunk in the buffer, counted from 1 over the whole file.
    pub chunk_id: u64,
    /// The number of producers times the chunks per producer. No chunk has a larger number; there
    /// may be fewer chunks than this.
    pub num_chunks: u64,
    /// The producer that fills the buffer, and that it goes back to.
    pub producer_id: ProducerId,
    /// The number of consumers that the producer can send the buffer to.
    pub num_consumers: usize,
}

#[derive(Debug)]
pub enum Message {
    /// Sent to consumers.
    Consume(ConsumerConfig, Buffer),
    /// Sent to producers.
    Produce(ProducerConfig, Buffer),
    /// Sent from a producer to all consumers to signal the end of transmission.
    End(ProducerId, NumProducers),
}

/// A message, its buffer seen as the bytes it holds.
pub enum MessageView {
    Consume(ConsumerConfig, Seq<u8>),
    Produce(ProducerConfig, Seq<u8>),
    End(ProducerId, NumProducers),
}

impl View for Message {
    type V = MessageView;

    open spec fn view(&self) -> MessageView {
        match *self {
            Message::Consume(cfg, buffer) => MessageView::Consume(cfg, buffer@),
            Message::Produce(cfg, buffer) => MessageView::Produce(cfg, buffer@),
            Message::End(id, num_producers) => MessageView::End(id, num_producers),
        }
    }
}

/// What arrived on a channel, its buffer seen as the bytes it holds; `None` stands for a closed
/// channel.
pub open spec fn received_view(received: Option<Message>) -> Option<MessageView> {
    match received {
        Some(m) => Some(m@),
        None => None,
    }
}

} // verus!
