use embedded_toolbox::queue::{ByteQueue, ByteSize, OverflowPolicy, PopOutcome};

#[derive(Debug, PartialEq)]
struct Item(usize);

impl ByteSize for Item {
    fn byte_size(&self) -> usize {
        self.0
    }
}

#[test]
fn consumers_have_explicit_overflow_policy() {
    let mut q = ByteQueue::new(10, 3);
    q.push(Item(4), OverflowPolicy::Reject).unwrap();
    q.push(Item(4), OverflowPolicy::Reject).unwrap();
    assert!(q.push(Item(4), OverflowPolicy::Reject).is_err());
    let outcome = q.push(Item(4), OverflowPolicy::DropOldest).unwrap();
    assert_eq!(outcome.dropped_items, 1);
    assert_eq!(q.depth_bytes(), 8);
}

#[test]
fn items_leave_in_order_and_a_closed_queue_ends() {
    let mut q = ByteQueue::new(10, 3);
    assert!(matches!(q.pop_timeout(false), PopOutcome::Wait));
    assert!(matches!(q.pop_timeout(true), PopOutcome::Ended));
    q.push(Item(1), OverflowPolicy::Reject).unwrap();
    q.push(Item(2), OverflowPolicy::Reject).unwrap();
    q.close();
    assert_eq!(q.push(Item(3), OverflowPolicy::DropOldest), Err(Item(3)));
    assert_eq!(q.try_pop(), Some(Item(1)));
    assert!(matches!(q.pop_timeout(false), PopOutcome::Item(Item(2))));
    assert!(matches!(q.pop_timeout(false), PopOutcome::Ended));
    assert_eq!(q.depth_items(), 0);
}

#[test]
fn clearing_to_low_water_makes_room() {
    let mut q = ByteQueue::new(10, 8);
    for _ in 0..5 {
        q.push(Item(2), OverflowPolicy::ClearToLowWater).unwrap();
    }
    let outcome = q.push(Item(1), OverflowPolicy::ClearToLowWater).unwrap();
    assert!(outcome.dropped_items > 0);
    assert_eq!(outcome.dropped_bytes, 2 * outcome.dropped_items);
    assert_eq!(q.depth_bytes(), 10 - outcome.dropped_bytes + 1);
    assert!(q.depth_bytes() <= 6);
}

#[test]
fn an_item_that_can_never_fit_is_refused() {
    let mut q = ByteQueue::new(10, 3);
    q.push(Item(4), OverflowPolicy::DropOldest).unwrap();
    assert_eq!(q.push(Item(11), OverflowPolicy::DropOldest), Err(Item(11)));
    assert_eq!(q.depth_items(), 1);
}
