use multi_read::{build_consumers, build_producers, launch, Layout, Message, Run};

#[test]
fn each_producer_gets_its_buffers() {
    let queues = launch(3, 4, 10, 6, 5, 10, 2);
    assert_eq!(queues.len(), 3);
    for (i, queue) in queues.iter().enumerate() {
        assert_eq!(queue.len(), 2);
        for m in queue {
            match m {
                Message::Produce(cfg, buffer) => {
                    assert_eq!(cfg.chunk_id, 0);
                    assert_eq!(cfg.num_chunks, 15);
                    assert_eq!(cfg.producer_id, i as u64);
                    assert_eq!(cfg.num_consumers, 4);
                    assert_eq!(buffer.len(), if i == 2 { 6 } else { 10 });
                    assert!(buffer.capacity() >= 10);
                }
                _ => panic!("not a buffer"),
            }
        }
    }
}

#[test]
fn no_more_buffers_than_chunks() {
    let queues = launch(2, 1, 1, 1, 3, 1, 8);
    assert_eq!(queues.iter().map(|q| q.len()).collect::<Vec<usize>>(), vec![3, 3]);
    let none = launch(2, 1, 1, 1, 3, 1, 0);
    assert_eq!(none.iter().map(|q| q.len()).sum::<usize>(), 0);
    assert_eq!(launch(0, 1, 1, 1, 3, 1, 2).len(), 0);
}

#[test]
fn builds_producers_and_consumers() {
    assert_eq!(build_producers(&Layout::new(10, 3, 2)).len(), 3);
    assert_eq!(build_consumers::<usize>(4).len(), 4);
}

#[test]
fn prepares_a_run() {
    let run = Run::<usize>::prepare(101, 2, 3, 5, 4);
    assert_eq!(run.layout.producer_chunk_size, 51);
    assert_eq!(run.reserved_size, 11);
    assert_eq!(run.producers.len(), 2);
    assert_eq!(run.consumers.len(), 3);
    assert_eq!(run.queues.len(), 2);
    for queue in &run.queues {
        assert_eq!(queue.len(), 4);
    }
}
