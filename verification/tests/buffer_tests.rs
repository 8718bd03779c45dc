use sync_bridge::block::{Block, Cursor};
use sync_bridge::buffer::{synchronize, Buffered};
use sync_bridge::store::{StorageError, StoreAdapter};

fn blocks(numbers: &[u64]) -> Vec<Block> {
    numbers.iter().map(|&n| Block::new(n, vec![n as u8])).collect()
}

fn fresh(cursor: u64) -> (Buffered, StoreAdapter) {
    (Buffered::new(cursor), StoreAdapter::load(Cursor::new(cursor)))
}

#[test]
fn out_of_order_batch_applies_in_order() {
    let (mut buf, mut store) = fresh(0);
    let applied = synchronize(&mut buf, &mut store, blocks(&[3, 1, 2, 5, 4]));
    assert_eq!(applied, vec![1, 2, 3, 4, 5]);
    assert_eq!(buf.current_head(), 5);
    assert_eq!(store.last_applied(), 5);
    for n in 1..=5 {
        assert!(!buf.contains_block(n));
    }
}

#[test]
fn arrival_order_does_not_change_applied_stream() {
    let orders: [&[u64]; 4] = [
        &[1, 2, 3, 4, 5],
        &[5, 4, 3, 2, 1],
        &[2, 4, 1, 5, 3],
        &[3, 1, 2, 5, 4],
    ];
    for order in orders {
        let (mut buf, mut store) = fresh(0);
        let applied = synchronize(&mut buf, &mut store, blocks(order));
        assert_eq!(applied, vec![1, 2, 3, 4, 5]);
        assert_eq!(buf.current_head(), 5);
    }
}

#[test]
fn run_stops_at_first_gap() {
    let (mut buf, mut store) = fresh(0);
    let applied = synchronize(&mut buf, &mut store, blocks(&[5, 2, 1, 4]));
    assert_eq!(applied, vec![1, 2]);
    assert_eq!(buf.current_head(), 2);
    assert!(buf.contains_block(4));
    assert!(buf.contains_block(5));
    assert!(!buf.contains_block(3));
}

#[test]
fn failed_store_write_keeps_head_and_buffer() {
    let (mut buf, mut store) = fresh(0);
    for b in blocks(&[1, 2, 3, 4, 5]) {
        buf.push(b);
    }
    // Drive the flush by hand, as the surrounding process would: the durable
    // write for block 3 fails, so block 3 is never confirmed.
    loop {
        let next = buf.peek_next().map(|b| b.number);
        match next {
            Some(n) if n != 3 => {
                let applied = buf.confirm_applied(&mut store);
                assert_eq!(applied, n);
            }
            _ => break,
        }
    }
    assert_eq!(buf.current_head(), 2);
    assert_eq!(store.last_applied(), 2);
    assert!(buf.contains_block(3));
    assert!(buf.contains_block(4));
    assert!(buf.contains_block(5));
    // The write succeeds on retry: the retained remainder flushes cleanly.
    let applied = buf.flush_ready(&mut store);
    assert_eq!(applied, vec![3, 4, 5]);
    assert_eq!(buf.current_head(), 5);
}

#[test]
fn pushing_twice_equals_pushing_once() {
    let (mut once, mut once_store) = fresh(0);
    let (mut twice, mut twice_store) = fresh(0);
    once.push(Block::new(4, vec![40]));
    twice.push(Block::new(4, vec![40]));
    twice.push(Block::new(4, vec![40]));
    assert_eq!(once.current_head(), twice.current_head());
    for n in 0..8 {
        assert_eq!(once.contains_block(n), twice.contains_block(n));
    }
    let a1 = synchronize(&mut once, &mut once_store, blocks(&[1, 2, 3]));
    let a2 = synchronize(&mut twice, &mut twice_store, blocks(&[1, 2, 3]));
    assert_eq!(a1, a2);
    assert_eq!(a1, vec![1, 2, 3, 4]);
}

#[test]
fn duplicate_keeps_first_payload() {
    let mut buf = Buffered::new(0);
    buf.push(Block::new(1, vec![11]));
    buf.push(Block::new(1, vec![99]));
    let next = buf.peek_next().expect("block 1 is ready");
    assert_eq!(next.number, 1);
    assert_eq!(next.payload, vec![11]);
}

#[test]
fn stale_block_is_a_no_op() {
    let mut buf = Buffered::new(5);
    buf.push(Block::new(3, vec![3]));
    buf.push(Block::new(5, vec![5]));
    assert!(!buf.contains_block(3));
    assert!(!buf.contains_block(5));
    assert_eq!(buf.current_head(), 5);
    assert!(buf.peek_next().is_none());
}

#[test]
fn empty_batch_changes_nothing() {
    let (mut buf, mut store) = fresh(7);
    let applied = synchronize(&mut buf, &mut store, Vec::new());
    assert!(applied.is_empty());
    assert_eq!(buf.current_head(), 7);
    assert_eq!(store.last_applied(), 7);
}

#[test]
fn flush_releases_initial_backlog() {
    let (mut buf, mut store) = fresh(0);
    buf.push(Block::new(2, vec![2]));
    buf.push(Block::new(1, vec![1]));
    let applied = buf.flush_ready(&mut store);
    assert_eq!(applied, vec![1, 2]);
    assert_eq!(buf.current_head(), 2);
}

#[test]
fn sync_head_discards_fallen_behind_entries() {
    let mut buf = Buffered::new(0);
    buf.push(Block::new(2, vec![2]));
    buf.push(Block::new(3, vec![3]));
    buf.push(Block::new(7, vec![7]));
    buf.sync_head(3);
    assert_eq!(buf.current_head(), 3);
    assert!(!buf.contains_block(2));
    assert!(!buf.contains_block(3));
    assert!(buf.contains_block(7));
    // The head never moves backwards.
    buf.sync_head(1);
    assert_eq!(buf.current_head(), 3);
    assert!(buf.contains_block(7));
}

#[test]
fn head_at_largest_number_has_no_successor() {
    let mut buf = Buffered::new(u64::MAX);
    buf.push(Block::new(5, vec![5]));
    buf.push(Block::new(u64::MAX, vec![255]));
    assert!(buf.peek_next().is_none());
    assert!(!buf.contains_block(5));
    assert!(!buf.contains_block(u64::MAX));
    assert_eq!(buf.current_head(), u64::MAX);
}

#[test]
fn adapter_at_largest_cursor_accepts_nothing() {
    let mut store = StoreAdapter::load(Cursor::new(u64::MAX));
    let block = Block::new(u64::MAX, vec![255]);
    assert_eq!(store.apply(&block), Err(StorageError::OutOfOrder));
    assert_eq!(store.last_applied(), u64::MAX);
}

#[test]
fn adapter_rejects_out_of_order_apply() {
    let mut store = StoreAdapter::load(Cursor::new(0));
    let out_of_order = Block::new(2, vec![2]);
    assert_eq!(store.apply(&out_of_order), Err(StorageError::OutOfOrder));
    assert_eq!(store.last_applied(), 0);
    let in_order = Block::new(1, vec![1]);
    assert_eq!(store.apply(&in_order), Ok(()));
    assert_eq!(store.last_applied(), 1);
    assert_eq!(store.apply(&out_of_order), Ok(()));
    assert_eq!(store.last_applied(), 2);
}
