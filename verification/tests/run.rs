use multi_read::{
    Consumer, ConsumerStep, ExactLoad, FnMove, Gathered, Message, Producer, ProducerStep, Run,
};
use std::collections::{BTreeSet, VecDeque};
use std::sync::Arc;

type Chunk = (u64, Vec<u8>);

/// What a run in memory brought back.
struct Outcome {
    bytes: usize,
    /// The chunks, each with the consumer that got it, in the order in which it got them.
    chunks: Vec<(usize, Chunk)>,
    most_buffers: usize,
    steps: usize,
}

/// Runs all producers and consumers in one thread, in an order drawn from `seed`.
fn run(file: &[u8], n: u64, nc: u64, cpp: u64, tasks: u64, seed: u64) -> Outcome {
    assert!(Run::<Chunk>::can_read(file.len() as u64, n, nc, cpp, tasks));
    let run = Run::<Chunk>::prepare(file.len() as u64, n, nc, cpp, tasks);
    let reserved = run.reserved_size as usize;
    let f = FnMove {
        f: Arc::new(|buf: &[u8], _t: &(), id: u64, num_chunks: u64| -> Chunk {
            assert!(1 <= id && id <= num_chunks);
            (id, buf.to_vec())
        }),
    };
    let mut producers: Vec<Option<Producer>> = run.producers.into_iter().map(Some).collect();
    let mut inbox: Vec<VecDeque<Message>> =
        run.queues.into_iter().map(|q| q.into_iter().collect()).collect();
    let mut consumers: Vec<Option<Consumer<Chunk>>> =
        run.consumers.into_iter().map(Some).collect();
    let mut queues: Vec<VecDeque<Message>> = (0..nc).map(|_| VecDeque::new()).collect();
    let mut gathered: Gathered<Chunk> = Gathered::new();
    let mut chunks = Vec::new();
    let mut state = seed;
    let (mut most_buffers, mut steps) = (0, 0);
    while consumers.iter().any(|c| c.is_some()) {
        let held: usize = inbox.iter().map(|q| q.len()).sum::<usize>()
            + queues
                .iter()
                .map(|q| q.iter().filter(|m| matches!(m, Message::Consume(_, _))).count())
                .sum::<usize>();
        most_buffers = most_buffers.max(held);
        steps += 1;
        assert!(steps < 1_000_000);
        state = state.wrapping_mul(6364136223846793005).wrapping_add(1442695040888963407);
        let pick = (state >> 33) % (n + nc);
        if pick < n {
            let i = pick as usize;
            let mut done = false;
            if let Some(p) = producers[i].as_mut() {
                if let Some(m) = inbox[i].pop_front() {
                    let (len, capacity) = match &m {
                        Message::Produce(_, buffer) => (buffer.len(), buffer.capacity()),
                        _ => panic!("not a buffer"),
                    };
                    let received = Some(m);
                    assert!(p.accepts(&received, len));
                    match p.receive(received, capacity) {
                        ProducerStep::Read(task) => {
                            assert!(task.buffer.len() <= len);
                            assert!(len <= reserved);
                            assert_eq!(task.buffer.capacity(), capacity);
                            let mut load = ExactLoad::new(task.buffer, task.offset);
                            while let Some(offset) = load.next_read() {
                                let rest = load.unfilled();
                                let (a, len) = (offset as usize, rest.len());
                                rest.copy_from_slice(&file[a..a + len]);
                                load.advance(len);
                            }
                            let d = p.deliver(task.cfg, load.into_buffer());
                            assert!(consumers[d.consumer].is_some());
                            queues[d.consumer].push_back(d.message);
                            done = p.is_done();
                            assert_eq!(d.ends.len(), if done { nc as usize } else { 0 });
                            for (queue, end) in queues.iter_mut().zip(d.ends) {
                                queue.push_back(end);
                            }
                        }
                        ProducerStep::Exit => panic!("a producer gave up"),
                    }
                }
            }
            if done {
                producers[i] = None;
                inbox[i].clear();
            }
        } else {
            let c = (pick - n) as usize;
            let mut last = false;
            if let Some(consumer) = consumers[c].as_mut() {
                if let Some(m) = queues[c].pop_front() {
                    let received = Some(m);
                    assert!(consumer.accepts(&received));
                    match consumer.receive(&f, &(), received) {
                        ConsumerStep::Return(i, m) => {
                            if producers[i as usize].is_some() {
                                inbox[i as usize].push_back(m);
                            }
                        }
                        ConsumerStep::EndSignal(signal) => last = signal.is_last,
                        ConsumerStep::Exit => unreachable!(),
                    }
                }
            }
            if last {
                assert_eq!(queues[c].len(), 0);
                let (bytes, ret) = consumers[c].take().unwrap().finish();
                for (id, chunk) in &ret {
                    assert_eq!(*id, chunk.0);
                    chunks.push((c, chunk.clone()));
                }
                gathered.join(bytes, ret);
            }
        }
    }
    assert_eq!(gathered.ret.len(), chunks.len());
    Outcome { bytes: gathered.bytes_consumed, chunks, most_buffers, steps }
}

fn file(len: usize) -> Vec<u8> {
    (0..len).map(|x| (x * 31 + x / 251) as u8).collect()
}

const CASES: [(usize, u64, u64, u64, u64); 9] = [
    (100, 4, 3, 5, 2),
    (101, 2, 5, 5, 2),
    (1000, 7, 2, 11, 3),
    (64, 1, 1, 1, 1),
    (64, 8, 8, 2, 1),
    (4, 3, 2, 1, 2),
    (4, 1, 2, 3, 9),
    (0, 3, 2, 4, 2),
    (1, 1, 4, 1, 2),
];

#[test]
fn all_bytes_are_consumed() {
    for (len, n, nc, cpp, tasks) in CASES {
        for seed in 0..20 {
            assert_eq!(run(&file(len), n, nc, cpp, tasks, seed).bytes, len);
        }
    }
}

#[test]
fn chunks_in_the_order_of_their_numbers_are_the_file() {
    for (len, n, nc, cpp, tasks) in CASES {
        for seed in 0..10 {
            let data = file(len);
            let mut chunks: Vec<Chunk> =
                run(&data, n, nc, cpp, tasks, seed).chunks.into_iter().map(|x| x.1).collect();
            chunks.sort();
            let all: Vec<u8> = chunks.into_iter().flat_map(|x| x.1).collect();
            assert_eq!(all, data);
        }
    }
}

#[test]
fn every_chunk_arrives_once_and_where_it_is_due() {
    for (len, n, nc, cpp, tasks) in CASES {
        for seed in 0..10 {
            let outcome = run(&file(len), n, nc, cpp, tasks, seed);
            let mut ids = BTreeSet::new();
            for (c, (id, _)) in &outcome.chunks {
                assert!(ids.insert(*id));
                let (i, k) = ((id - 1) / cpp, (id - 1) % cpp);
                assert_eq!(*c as u64, (i + 1 + k) % nc);
            }
        }
    }
}

#[test]
fn a_consumer_gets_the_chunks_of_a_producer_in_order() {
    for seed in 0..20 {
        let outcome = run(&file(1000), 4, 3, 12, 3, seed);
        for c in 0..3usize {
            for i in 0..4u64 {
                let ids: Vec<u64> = outcome
                    .chunks
                    .iter()
                    .filter(|x| x.0 == c && (x.1 .0 - 1) / 12 == i)
                    .map(|x| x.1 .0)
                    .collect();
                assert_eq!(ids.len(), 4);
                assert!(ids.windows(2).all(|w| w[0] + 3 == w[1]));
            }
        }
    }
}

#[test]
fn memory_does_not_grow_with_the_number_of_chunks() {
    for cpp in [5u64, 10, 20, 50] {
        let outcome = run(&file(1000), 4, 3, cpp, 3, cpp);
        assert_eq!(outcome.most_buffers, 12);
    }
    assert_eq!(run(&file(1000), 4, 3, 2, 3, 1).most_buffers, 8);
}

#[test]
fn a_run_on_one_buffer_per_producer_ends() {
    for seed in 0..20 {
        let outcome = run(&file(500), 5, 2, 20, 1, seed);
        assert_eq!(outcome.bytes, 500);
        assert!(outcome.steps > 100);
    }
}

#[test]
fn without_buffers_everyone_stops_at_a_closed_channel() {
    let run = Run::<usize>::prepare(100, 4, 3, 5, 0);
    assert_eq!(run.queues.iter().map(|q| q.len()).sum::<usize>(), 0);
    for mut p in run.producers {
        assert!(p.accepts(&None, 0));
        assert!(matches!(p.receive(None, 0), ProducerStep::Exit));
        assert!(!p.is_done());
    }
    let f = FnMove { f: Arc::new(|buf: &[u8], _t: &(), _a: u64, _b: u64| buf.len()) };
    let mut gathered = Gathered::new();
    for mut c in run.consumers {
        assert!(matches!(c.receive(&f, &(), None), ConsumerStep::Exit));
        let (bytes, ret) = c.finish();
        gathered.join(bytes, ret);
    }
    assert_eq!(gathered.bytes_consumed, 0);
    assert_eq!(gathered.ret.len(), 0);
}
