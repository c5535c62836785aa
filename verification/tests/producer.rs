use multi_read::{select_tx, Config, Layout, Message, Producer, ProducerStep};

fn config(num_consumers: usize) -> Config {
    Config { chunk_id: 0, num_chunks: 6, producer_id: 1, num_consumers }
}

fn produce(num_consumers: usize, len: usize) -> Option<Message> {
    Some(Message::Produce(config(num_consumers), vec![7; len]))
}

#[test]
fn selects_consumers_in_turn() {
    assert_eq!(select_tx(0, 0, 3, 2), 1);
    assert_eq!(select_tx(0, 1, 3, 2), 2);
    assert_eq!(select_tx(0, 2, 3, 2), 0);
    assert_eq!(select_tx(5, 7, 3, 8), 2);
    assert_eq!(select_tx(9, 4, 1, 8), 0);
}

#[test]
fn reads_its_region_chunk_by_chunk() {
    // Regions 0..11 and 11..21; the second has chunks of 4, 4 and 2 bytes.
    let layout = Layout::new(21, 2, 3);
    let mut p = Producer::new(&layout, 1);
    let mut seen = Vec::new();
    let mut ends = 0;
    while !p.is_done() {
        match p.receive(produce(3, 4), 4) {
            ProducerStep::Read(task) => {
                let (offset, len) = (task.offset, task.buffer.len());
                let delivery = p.deliver(task.cfg, task.buffer);
                assert_eq!(delivery.consumer, task.consumer);
                ends += delivery.ends.len();
                match delivery.message {
                    Message::Consume(cfg, buffer) => {
                        assert_eq!(buffer.len(), len);
                        assert_eq!(cfg.num_chunks, 6);
                        assert_eq!(cfg.producer_id, 1);
                        assert_eq!(cfg.num_consumers, 3);
                        seen.push((cfg.chunk_id, offset, len, delivery.consumer));
                    }
                    _ => panic!("not a chunk"),
                }
                for m in delivery.ends {
                    assert!(matches!(m, Message::End(1, 2)));
                }
            }
            ProducerStep::Exit => panic!("no chunk"),
        }
    }
    assert_eq!(seen, vec![(4, 11, 4, 2), (5, 15, 4, 0), (6, 19, 2, 1)]);
    assert_eq!(ends, 3);
}

#[test]
fn sets_the_buffer_to_the_chunk_size() {
    let layout = Layout::new(10, 2, 2);
    let mut p = Producer::new(&layout, 0);
    match p.receive(produce(2, 5), 5) {
        ProducerStep::Read(task) => assert_eq!(task.buffer, vec![7, 7, 7]),
        ProducerStep::Exit => panic!("no chunk"),
    }
    let mut q = Producer::new(&layout, 0);
    let mut short = Vec::with_capacity(3);
    short.push(7);
    let capacity = short.capacity();
    let received = Some(Message::Produce(config(2), short));
    assert!(q.accepts(&received, capacity));
    match q.receive(received, capacity) {
        ProducerStep::Read(task) => {
            assert_eq!(task.buffer, vec![7, 0, 0]);
            assert_eq!(task.buffer.capacity(), capacity);
        }
        ProducerStep::Exit => panic!("no chunk"),
    }
}

#[test]
fn does_not_accept_a_buffer_that_is_too_small() {
    // The chunks of the first region are 3 and 2 bytes.
    let layout = Layout::new(10, 2, 2);
    let mut p = Producer::new(&layout, 0);
    assert!(!p.accepts(&produce(2, 1), 0));
    assert!(!p.accepts(&produce(2, 1), 2));
    assert!(p.accepts(&produce(2, 1), 3));
    assert!(p.accepts(&None, 0));
    assert!(p.accepts(&Some(Message::End(0, 2)), 0));
    if let ProducerStep::Read(task) = p.receive(produce(2, 3), 3) {
        p.deliver(task.cfg, task.buffer);
    }
    assert!(p.accepts(&produce(2, 2), 2));
    assert!(!p.accepts(&produce(2, 1), 1));
}

#[test]
fn does_not_accept_a_buffer_without_consumers() {
    let layout = Layout::new(10, 2, 2);
    let p = Producer::new(&layout, 0);
    assert!(!p.accepts(&produce(0, 3), 3));
    assert!(p.accepts(&produce(1, 3), 3));
}

#[test]
fn an_empty_region_is_one_empty_chunk() {
    let layout = Layout::new(4, 3, 2);
    let mut p = Producer::new(&layout, 2);
    assert!(p.accepts(&produce(2, 0), 0));
    match p.receive(produce(2, 0), 0) {
        ProducerStep::Read(task) => {
            assert_eq!(task.buffer.len(), 0);
            assert_eq!(task.offset, 4);
            let delivery = p.deliver(task.cfg, task.buffer);
            assert_eq!(delivery.ends.len(), 2);
        }
        ProducerStep::Exit => panic!("no chunk"),
    }
    assert!(p.is_done());
}

#[test]
fn stops_early_when_full_chunks_use_up_the_region() {
    // Three chunks are planned, but two of two bytes are all there is.
    let layout = Layout::new(4, 1, 3);
    let mut p = Producer::new(&layout, 0);
    let mut chunks = 0;
    while !p.is_done() {
        if let ProducerStep::Read(task) = p.receive(produce(1, 2), 2) {
            p.deliver(task.cfg, task.buffer);
            chunks += 1;
        }
    }
    assert_eq!(chunks, 2);
}

#[test]
fn anything_but_a_buffer_ends_a_producer() {
    let layout = Layout::new(10, 2, 2);
    let mut p = Producer::new(&layout, 0);
    assert!(matches!(p.receive(None, 0), ProducerStep::Exit));
    assert!(matches!(p.receive(Some(Message::End(0, 2)), 0), ProducerStep::Exit));
    let wrong = Some(Message::Consume(config(2), vec![1]));
    assert!(matches!(p.receive(wrong, 1), ProducerStep::Exit));
    assert!(!p.is_done());
    match p.receive(produce(2, 3), 3) {
        ProducerStep::Read(task) => assert_eq!(task.offset, 0),
        ProducerStep::Exit => panic!("no chunk"),
    }
}

#[test]
fn does_not_accept_a_buffer_for_a_chunk_without_a_number() {
    let layout = Layout::new(0, 2, u64::MAX);
    let p = Producer::new(&layout, 1);
    assert!(!p.accepts(&produce(1, 0), 0));
    let q = Producer::new(&layout, 0);
    assert!(q.accepts(&produce(1, 0), 0));
}
