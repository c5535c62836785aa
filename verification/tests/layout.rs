use multi_read::{Layout, Run};

#[test]
fn divides_a_file_with_a_short_last_region() {
    assert!(Layout::can_divide(10, 3, 2));
    let l = Layout::new(10, 3, 2);
    assert_eq!(l.total_size, 10);
    assert_eq!(l.num_producers, 3);
    assert_eq!(l.chunks_per_producer, 2);
    assert_eq!(l.producer_chunk_size, 4);
    assert_eq!(l.last_producer_chunk_size, 2);
    assert_eq!(l.task_chunk_size, 2);
    assert_eq!(l.last_prod_task_chunk_size, 1);
    assert!(l.has_last_tasks());
    assert_eq!(l.last_task_chunk_size(), 2);
    assert_eq!(l.last_last_prod_task_chunk_size(), 1);
    assert_eq!(l.reserved_size(), 2);
}

#[test]
fn divides_with_short_last_chunks() {
    let l = Layout::new(101, 2, 5);
    assert_eq!(l.producer_chunk_size, 51);
    assert_eq!(l.last_producer_chunk_size, 50);
    assert_eq!(l.task_chunk_size, 11);
    assert_eq!(l.last_prod_task_chunk_size, 10);
    assert_eq!(l.last_task_chunk_size(), 7);
    assert_eq!(l.last_last_prod_task_chunk_size(), 10);
    assert_eq!(l.reserved_size(), 11);
}

#[test]
fn regions_cover_the_file() {
    for total in [0u64, 1, 4, 9, 10, 64, 101] {
        for n in 1..6u64 {
            if Layout::can_divide(total, n, 3) {
                let l = Layout::new(total, n, 3);
                let covered = (n - 1) * l.producer_chunk_size + l.last_producer_chunk_size;
                assert_eq!(covered, total);
                assert!(l.last_producer_chunk_size <= l.producer_chunk_size);
            }
        }
    }
}

#[test]
fn an_empty_file_has_empty_regions() {
    let l = Layout::new(0, 4, 3);
    assert_eq!(l.producer_chunk_size, 0);
    assert_eq!(l.last_producer_chunk_size, 0);
    assert_eq!(l.task_chunk_size, 0);
    assert_eq!(l.reserved_size(), 0);
}

#[test]
fn refuses_what_cannot_be_divided() {
    assert!(!Layout::can_divide(10, 0, 2));
    assert!(!Layout::can_divide(10, 2, 0));
    // Four regions of two bytes reach past the fifth byte.
    assert!(!Layout::can_divide(5, 4, 1));
    assert!(Layout::can_divide(4, 3, 1));
    assert!(!Layout::can_divide(u64::MAX, 1, 1));
    assert!(Layout::can_divide(u64::MAX - 1, 1, 1));
    assert!(!Layout::can_divide(10, 1, u64::MAX));
    assert!(Layout::can_divide(10, 1, u64::MAX - 10));
}

#[test]
fn refuses_regions_without_a_last_chunk() {
    // Three chunks of two bytes are more than a region of five holds.
    assert!(!Layout::new(5, 1, 4).has_last_tasks());
    assert!(Layout::new(4, 1, 3).has_last_tasks());
    assert_eq!(Layout::new(4, 1, 3).last_task_chunk_size(), 0);
}

#[test]
fn tells_what_can_be_read() {
    assert!(Run::<usize>::can_read(100, 4, 3, 5, 2));
    assert!(!Run::<usize>::can_read(5, 4, 3, 1, 2));
    assert!(!Run::<usize>::can_read(5, 1, 3, 4, 2));
    assert!(!Run::<usize>::can_read(0, 3, 3, u64::MAX / 2, 2));
    assert!(Run::<usize>::can_read(0, 2, 0, u64::MAX / 2, 2));
    assert!(!Run::<usize>::can_read(u64::MAX / 2 + 10, 1, 1, 1, 2));
    // Without buffers nothing is reserved, and no chunk of the last region is numbered.
    assert!(Run::<usize>::can_read(0, 3, 3, u64::MAX / 2, 0));
    assert!(!Run::<usize>::can_read(0, 4, 3, u64::MAX / 2, 0));
    assert!(Run::<usize>::can_read(u64::MAX / 2 + 10, 1, 1, 1, 0));
}
