use home_monitor_node::mailbox::Mailbox;
use home_monitor_node::queue::BoundedQueue;

#[test]
fn queue_delivers_in_fifo_order() {
    let mut q: BoundedQueue<u32> = BoundedQueue::new(10);
    assert!(q.try_enqueue(1).is_ok());
    assert!(q.try_enqueue(2).is_ok());
    assert!(q.try_enqueue(3).is_ok());
    assert_eq!(q.try_dequeue(), Some(1));
    assert_eq!(q.try_dequeue(), Some(2));
    assert_eq!(q.try_dequeue(), Some(3));
    assert_eq!(q.try_dequeue(), None);
}

#[test]
fn queue_interleaved_producers_keep_their_own_order() {
    // Producer A submits 10, 20; producer B submits 77 in between. A's
    // events never overtake each other.
    let mut q: BoundedQueue<u32> = BoundedQueue::new(10);
    assert!(q.try_enqueue(10).is_ok());
    assert!(q.try_enqueue(77).is_ok());
    assert!(q.try_enqueue(20).is_ok());
    let drained = [q.try_dequeue(), q.try_dequeue(), q.try_dequeue()];
    assert_eq!(drained, [Some(10), Some(77), Some(20)]);
}

#[test]
fn full_queue_returns_value_instead_of_dropping() {
    let mut q: BoundedQueue<u8> = BoundedQueue::new(2);
    assert!(q.try_enqueue(1).is_ok());
    assert!(q.try_enqueue(2).is_ok());
    assert!(q.is_full());
    assert_eq!(q.try_enqueue(3), Err(3));
    assert_eq!(q.len(), 2);
    // Space frees, the retried submission goes through behind the rest.
    assert_eq!(q.try_dequeue(), Some(1));
    assert!(q.try_enqueue(3).is_ok());
    assert_eq!(q.try_dequeue(), Some(2));
    assert_eq!(q.try_dequeue(), Some(3));
}

#[test]
fn empty_queue_reports_empty() {
    let mut q: BoundedQueue<u8> = BoundedQueue::new(1);
    assert!(q.is_empty());
    assert_eq!(q.try_dequeue(), None);
    assert!(q.try_enqueue(9).is_ok());
    assert!(!q.is_empty());
}

#[test]
fn mailbox_latest_write_wins() {
    let mut m: Mailbox<u32> = Mailbox::new();
    m.publish(1);
    m.publish(2);
    m.publish(3);
    assert_eq!(m.try_take(), Some(3));
    assert_eq!(m.try_take(), None);
}

#[test]
fn mailbox_take_clears_the_slot() {
    let mut m: Mailbox<&str> = Mailbox::new();
    assert_eq!(m.try_take(), None);
    m.publish("a");
    assert_eq!(m.try_take(), Some("a"));
    assert_eq!(m.try_take(), None);
    m.publish("b");
    assert_eq!(m.try_take(), Some("b"));
}
