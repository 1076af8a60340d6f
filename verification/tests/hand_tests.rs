use war_sim::hand::HistoryQueue;

#[test]
fn from_vec_holds_all_cards() {
    let q = HistoryQueue::from(vec![3u8, 1, 4]);
    assert_eq!(q.len(), 3);
    assert_eq!(q.history(), &[3u8, 1, 4]);
}

#[test]
fn pop_is_fifo() {
    let mut q = HistoryQueue::from(vec![3u8, 1, 4]);
    assert_eq!(q.pop(), Some(3));
    assert_eq!(q.pop(), Some(1));
    assert_eq!(q.pop(), Some(4));
    assert_eq!(q.pop(), None);
    assert_eq!(q.len(), 0);
}

#[test]
fn pop_keeps_history() {
    let mut q = HistoryQueue::from(vec![7u8, 8]);
    q.pop();
    q.pop();
    assert_eq!(q.history(), &[7u8, 8]);
    assert_eq!(q.len(), 0);
    assert_eq!(q.pop(), None);
}

#[test]
fn push_extends_history_and_window() {
    let mut q = HistoryQueue::from(vec![5u8]);
    q.pop();
    q.push(9);
    assert_eq!(q.history(), &[5u8, 9]);
    assert_eq!(q.len(), 1);
    assert_eq!(q.pop(), Some(9));
}

#[test]
fn current_range_is_trailing_window() {
    let mut q = HistoryQueue::from(vec![2u8, 4, 6]);
    let r = q.current_range();
    assert_eq!(r.start, 0);
    assert_eq!(r.end, 3);
    q.pop();
    let r = q.current_range();
    assert_eq!(r.start, 1);
    assert_eq!(r.end, 3);
    q.push(8);
    let r = q.current_range();
    assert_eq!(r.start, 1);
    assert_eq!(r.end, 4);
    assert_eq!(q.start(), 1);
}

#[test]
fn index_counts_from_oldest_held() {
    let mut q = HistoryQueue::from(vec![2u8, 4, 6]);
    q.pop();
    assert_eq!(*q.index(0), 4);
    assert_eq!(*q.index(1), 6);
}
