use multi_read::ExactLoad;

fn read_at(file: &[u8], rest: &mut [u8], offset: usize, limit: usize) -> usize {
    let n = limit.min(rest.len()).min(file.len() - offset);
    rest[..n].copy_from_slice(&file[offset..offset + n]);
    n
}

#[test]
fn a_single_read_loads_the_bytes_at_the_offset() {
    let file: Vec<u8> = (0..20).collect();
    let mut load = ExactLoad::new(vec![0; 5], 7);
    assert_eq!(load.next_read(), Some(7));
    let n = read_at(&file, load.unfilled(), 7, 100);
    load.advance(n);
    assert_eq!(load.next_read(), None);
    assert_eq!(load.into_buffer(), vec![7, 8, 9, 10, 11]);
}

#[test]
fn every_read_starts_at_the_same_offset() {
    let file: Vec<u8> = (0..20).collect();
    let mut load = ExactLoad::new(vec![0; 7], 10);
    while let Some(offset) = load.next_read() {
        assert_eq!(offset, 10);
        let n = read_at(&file, load.unfilled(), offset as usize, 3);
        load.advance(n);
    }
    assert_eq!(load.into_buffer(), vec![10, 11, 12, 10, 11, 12, 10]);
}

#[test]
fn a_read_of_nothing_is_tried_again() {
    let mut load = ExactLoad::new(vec![1, 2], 3);
    load.advance(0);
    assert_eq!(load.next_read(), Some(3));
    assert_eq!(load.unfilled().len(), 2);
    load.advance(1);
    assert_eq!(load.unfilled().len(), 1);
    assert_eq!(load.into_buffer(), vec![1, 2]);
}

#[test]
fn an_empty_buffer_needs_no_read() {
    let load = ExactLoad::new(vec![], 3);
    assert_eq!(load.next_read(), None);
    assert_eq!(load.into_buffer(), Vec::<u8>::new());
}
