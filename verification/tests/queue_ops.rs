use roomcast::queue::Queue;

#[test]
fn positions_start_at_one_and_increase() {
    let mut q = Queue::new(7);
    let p1 = q.enqueue(101, 1);
    let p2 = q.enqueue(102, 2);
    let p3 = q.enqueue(103, 1);
    assert_eq!(p1, 1);
    assert_eq!(p2, 2);
    assert_eq!(p3, 3);
}

#[test]
fn dequeue_leaves_gaps_and_keeps_order() {
    let mut q = Queue::new(7);
    q.enqueue(101, 1);
    q.enqueue(102, 2);
    q.enqueue(103, 1);
    q.dequeue(102);
    let rows = q.get_enqueued();
    assert_eq!(rows.len(), 2);
    assert_eq!(rows[0].track_uuid, 101);
    assert_eq!(rows[0].idx, 1);
    assert_eq!(rows[1].track_uuid, 103);
    assert_eq!(rows[1].idx, 3);
    // the next position continues past the gap, never reusing 2
    let p4 = q.enqueue(104, 2);
    assert_eq!(p4, 4);
}

#[test]
fn queue_idx_found_and_missing() {
    let mut q = Queue::new(9);
    q.enqueue(55, 1);
    q.enqueue(56, 1);
    assert_eq!(q.get_queue_idx(56), 2);
    assert_eq!(q.get_queue_idx(99), -1);
}

#[test]
fn empty_queue_first_position_is_one() {
    let mut q = Queue::new(1);
    assert_eq!(q.enqueue(1, 1), 1);
}
