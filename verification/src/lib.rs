//! Reads a file with several producers and hands the chunks to several consumers, in a fixed
//! amount of memory.
//!
//! The file is cut into one region per producer, and each region into chunks. A producer reads
//! its chunks into buffers and sends them to the consumers in turn; a consumer runs a function
//! on each chunk and sends the buffer back to its producer, which reuses it. After its last
//! chunk a producer signals its end to every consumer, and a consumer stops when all producers
//! have, or when its channel is closed.
//!
//! This library decides: what to read, where to send it, and when to stop. Threads, channels
//! and the file itself are the caller's.
pub mod arith;
pub mod arrival;
pub mod capacity;
pub mod consumer;
pub mod gather;
pub mod launch;
pub mod laws;
pub mod layout;
pub mod load;
pub mod message;
pub mod operations;
pub mod placement;
pub mod producer;
pub mod progress;
pub mod run;
pub mod setup;
pub mod steps;
pub mod streams;
pub mod sum;
pub mod system;
pub mod upkeep;

pub use crate::consumer::{Consumer, ConsumerStep, EndSignal, FnMove};
pub use crate::gather::Gathered;
pub use crate::launch::launch;
pub use crate::layout::Layout;
pub use crate::load::ExactLoad;
pub use crate::message::{Buffer, Config, Message};
pub use crate::producer::{select_tx, Delivery, Producer, ProducerStep, ReadTask};
pub use crate::run::{build_consumers, build_producers, Run};
