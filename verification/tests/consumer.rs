use multi_read::{Config, Consumer, ConsumerStep, FnMove, Gathered, Message};
use std::sync::Arc;

fn config(chunk_id: u64) -> Config {
    Config { chunk_id, num_chunks: 9, producer_id: 2, num_consumers: 3 }
}

#[test]
fn calls_the_shared_function() {
    let f = FnMove {
        f: Arc::new(|buf: &[u8], t: &String, a: u64, b: u64| {
            format!("{}:{}/{}:{}", t, a, b, buf.len())
        }),
    };
    assert_eq!(f.call(&[1, 2, 3], &"TAG".to_string(), 4, 5), "TAG:4/5:3");
}

#[test]
fn consumes_a_chunk_and_returns_the_buffer() {
    let f = FnMove {
        f: Arc::new(|buf: &[u8], t: &u64, a: u64, b: u64| {
            buf.iter().map(|x| *x as u64).sum::<u64>() + 100 * a + 1000 * b + *t
        }),
    };
    let mut c: Consumer<u64> = Consumer::new();
    let received = Some(Message::Consume(config(5), vec![1, 2, 3]));
    assert!(c.accepts(&received));
    match c.receive(&f, &20000, received) {
        ConsumerStep::Return(producer_id, Message::Produce(cfg, buffer)) => {
            assert_eq!(producer_id, 2);
            assert_eq!(cfg.chunk_id, 5);
            assert_eq!(cfg.num_chunks, 9);
            assert_eq!(cfg.producer_id, 2);
            assert_eq!(cfg.num_consumers, 3);
            assert_eq!(buffer, vec![1, 2, 3]);
        }
        _ => panic!("no buffer returned"),
    }
    c.receive(&f, &20000, Some(Message::Consume(config(7), vec![9])));
    let (bytes, ret) = c.finish();
    assert_eq!(bytes, 4);
    assert_eq!(ret, vec![(5, 29506), (7, 29709)]);
}

#[test]
fn stops_at_the_last_end_signal() {
    let f = FnMove { f: Arc::new(|buf: &[u8], _t: &(), _a: u64, _b: u64| buf.len()) };
    let mut c: Consumer<usize> = Consumer::new();
    match c.receive(&f, &(), Some(Message::End(1, 2))) {
        ConsumerStep::EndSignal(signal) => {
            assert_eq!(signal.producer_id, 1);
            assert_eq!(signal.count, 1);
            assert_eq!(signal.num_producers, 2);
            assert!(!signal.is_last);
        }
        _ => panic!("no end signal"),
    }
    match c.receive(&f, &(), Some(Message::End(0, 2))) {
        ConsumerStep::EndSignal(signal) => {
            assert_eq!(signal.count, 2);
            assert!(signal.is_last);
        }
        _ => panic!("no end signal"),
    }
    assert_eq!(c.finish().0, 0);
}

#[test]
fn a_closed_channel_ends_a_consumer() {
    let f = FnMove { f: Arc::new(|buf: &[u8], _t: &(), _a: u64, _b: u64| buf.len()) };
    let mut c: Consumer<usize> = Consumer::new();
    assert!(c.accepts(&None));
    assert!(matches!(c.receive(&f, &(), None), ConsumerStep::Exit));
    let (bytes, ret) = c.finish();
    assert_eq!(bytes, 0);
    assert_eq!(ret.len(), 0);

    let mut d: Consumer<usize> = Consumer::new();
    d.receive(&f, &(), Some(Message::Consume(config(5), vec![1, 2, 3])));
    d.receive(&f, &(), Some(Message::End(0, 2)));
    assert!(matches!(d.receive(&f, &(), None), ConsumerStep::Exit));
    let (bytes, ret) = d.finish();
    assert_eq!(bytes, 3);
    assert_eq!(ret, vec![(5, 3)]);
}

#[test]
fn does_not_accept_a_buffer_to_fill() {
    let c: Consumer<usize> = Consumer::new();
    assert!(!c.accepts(&Some(Message::Produce(config(1), vec![1]))));
    assert!(c.accepts(&Some(Message::End(0, 1))));
}

#[test]
fn gathers_bytes_and_results() {
    let mut g: Gathered<char> = Gathered::new();
    assert_eq!(g.bytes_consumed, 0);
    g.join(3, vec![(1, 'a'), (4, 'b')]);
    g.join(5, vec![(2, 'c')]);
    assert_eq!(g.bytes_consumed, 8);
    assert_eq!(g.ret, vec![(1, 'a'), (4, 'b'), (2, 'c')]);
}
