use bytes::Bytes;
use xanq::queue::Queue;

fn b(s: &str) -> Bytes {
    Bytes::from(s.as_bytes().to_vec())
}

#[test]
fn new_queue_is_empty() {
    let q = Queue::new();
    assert_eq!(q.len(), 0);
    assert!(q.is_empty());
    assert_eq!(q.front(), None);
    assert_eq!(q.rear(), None);
    assert_eq!(q.peek(0), None);
}

#[test]
fn push_and_pop_in_order() {
    let mut q = Queue::new();
    q.push_back(b("a"));
    q.push_back(b("b"));
    q.push_back(b("c"));
    assert_eq!(q.len(), 3);
    assert_eq!(q.front(), Some(b("a")));
    assert_eq!(q.rear(), Some(b("c")));
    assert_eq!(q.pop_front(), Some(b("a")));
    assert_eq!(q.pop_front(), Some(b("b")));
    assert_eq!(q.len(), 1);
    assert_eq!(q.pop_front(), Some(b("c")));
    assert_eq!(q.pop_front(), None);
    assert!(q.is_empty());
    assert_eq!(q.rear(), None);
}

#[test]
fn ids_survive_pops() {
    let mut q = Queue::new();
    q.push_back(b("a"));
    q.push_back(b("b"));
    q.push_back(b("c"));
    assert_eq!(q.peek(1), Some(b("b")));
    q.pop_front();
    assert_eq!(q.peek(0), None);
    assert_eq!(q.peek(1), Some(b("b")));
    assert_eq!(q.peek(2), Some(b("c")));
    assert_eq!(q.peek(3), None);
}

#[test]
fn compact_drops_popped_slots_and_keeps_ids() {
    let mut q = Queue::new();
    q.push_back(b("a"));
    q.push_back(b("b"));
    q.push_back(b("c"));
    q.pop_front();
    q.pop_front();
    assert_eq!(q.compact(), 2);
    assert_eq!(q.len(), 1);
    assert_eq!(q.peek(0), None);
    assert_eq!(q.peek(1), None);
    assert_eq!(q.peek(2), Some(b("c")));
    assert_eq!(q.front(), Some(b("c")));
    assert_eq!(q.compact(), 0);
    q.push_back(b("d"));
    assert_eq!(q.peek(3), Some(b("d")));
}

#[test]
fn clear_reports_pending_and_never_reuses_ids() {
    let mut q = Queue::new();
    q.push_back(b("a"));
    q.push_back(b("b"));
    q.pop_front();
    assert_eq!(q.clear(), 1);
    assert!(q.is_empty());
    assert_eq!(q.peek(1), None);
    q.push_back(b("x"));
    assert_eq!(q.peek(1), None);
    assert_eq!(q.peek(2), Some(b("x")));
}

#[test]
fn rear_after_everything_popped_is_none() {
    let mut q = Queue::new();
    q.push_back(b("a"));
    q.pop_front();
    assert_eq!(q.rear(), None);
    assert_eq!(q.front(), None);
    assert_eq!(q.peek(0), None);
}
