use crystallized_time::scheduler::NoteOffQueue;

#[test]
fn releases_due_messages_in_deadline_order() {
    let mut q = NoteOffQueue::new();
    q.schedule(30, [0x80, 3, 0]);
    q.schedule(10, [0x80, 1, 0]);
    q.schedule(20, [0x80, 2, 0]);
    assert_eq!(q.len(), 3);
    assert_eq!(q.pop_due(5), Vec::<[u8; 3]>::new());
    assert_eq!(q.pop_due(20), vec![[0x80, 1, 0], [0x80, 2, 0]]);
    assert_eq!(q.len(), 1);
    assert_eq!(q.pop_due(100), vec![[0x80, 3, 0]]);
    assert_eq!(q.len(), 0);
}

#[test]
fn equal_deadlines_release_first_come_first_served() {
    let mut q = NoteOffQueue::new();
    q.schedule(10, [0x80, 1, 0]);
    q.schedule(10, [0x81, 2, 0]);
    q.schedule(5, [0x82, 3, 0]);
    assert_eq!(
        q.pop_due(10),
        vec![[0x82, 3, 0], [0x80, 1, 0], [0x81, 2, 0]]
    );
}

#[test]
fn drain_releases_everything() {
    let mut q = NoteOffQueue::new();
    q.schedule(1000, [0x80, 1, 0]);
    q.schedule(2000, [0x80, 2, 0]);
    assert_eq!(q.drain_all(), vec![[0x80, 1, 0], [0x80, 2, 0]]);
    assert_eq!(q.len(), 0);
    assert!(q.pop_due(u64::MAX).is_empty());
}
