use xiaolin_agent::message_queue::{MessageQueue, Priority, MAX_QUEUE_SIZE};

#[test]
fn push_and_drain_respects_priority_ordering() {
    let mut q = MessageQueue::new();
    q.push(Priority::Low, "bg".into(), "low msg".into());
    q.push(Priority::High, "system".into(), "high msg".into());
    q.push(Priority::Normal, "user".into(), "normal msg".into());

    let msgs = q.drain_all();
    assert_eq!(msgs.len(), 3);
    assert_eq!(msgs[0].priority, Priority::High);
    assert_eq!(msgs[1].priority, Priority::Normal);
    assert_eq!(msgs[2].priority, Priority::Low);
}

#[test]
fn drain_with_max_priority_filters_correctly() {
    let mut q = MessageQueue::new();
    q.push(Priority::Low, "a".into(), "lo".into());
    q.push(Priority::High, "b".into(), "hi".into());
    q.push(Priority::Normal, "c".into(), "norm".into());

    let msgs = q.drain(Priority::Normal);
    assert_eq!(msgs.len(), 2);
    assert_eq!(msgs[0].priority, Priority::Normal);
    assert_eq!(msgs[1].priority, Priority::Low);

    assert_eq!(q.len(), 1);
    let remaining = q.drain_all();
    assert_eq!(remaining[0].priority, Priority::High);
}

#[test]
fn drain_empties_queue() {
    let mut q = MessageQueue::new();
    q.push(Priority::Normal, "src".into(), "msg".into());
    assert!(!q.is_empty());
    let _ = q.drain_all();
    assert!(q.is_empty());
}

#[test]
fn full_queue_drops_oldest_low_first() {
    let mut q = MessageQueue::new();
    q.push(Priority::Normal, "n".into(), "first normal".into());
    q.push(Priority::Low, "l".into(), "first low".into());
    for i in 2..MAX_QUEUE_SIZE {
        q.push(Priority::High, "h".into(), format!("high {i}"));
    }
    assert_eq!(q.len(), MAX_QUEUE_SIZE);
    q.push(Priority::High, "h".into(), "newest".into());
    assert_eq!(q.len(), MAX_QUEUE_SIZE);
    let all = q.drain_all();
    assert!(all.iter().all(|m| m.content != "first low"));
    assert!(all.iter().any(|m| m.content == "first normal"));
    assert!(all.iter().any(|m| m.content == "newest"));
}

#[test]
fn full_queue_of_high_rejects_low_and_evicts_oldest_for_others() {
    let mut q = MessageQueue::new();
    for i in 0..MAX_QUEUE_SIZE {
        q.push(Priority::High, "h".into(), format!("high {i}"));
    }
    q.push(Priority::Low, "l".into(), "dropped".into());
    assert_eq!(q.len(), MAX_QUEUE_SIZE);
    q.push(Priority::Normal, "n".into(), "kept".into());
    let all = q.drain_all();
    assert_eq!(all.len(), MAX_QUEUE_SIZE);
    assert!(all.iter().all(|m| m.content != "dropped" && m.content != "high 0"));
    assert_eq!(all.last().unwrap().content, "kept");
}

#[test]
fn drain_keeps_queue_order_within_priority() {
    let mut q = MessageQueue::new();
    q.push(Priority::Normal, "a".into(), "1".into());
    q.push(Priority::High, "b".into(), "2".into());
    q.push(Priority::Normal, "c".into(), "3".into());
    let out = q.drain(Priority::High);
    let contents: Vec<&str> = out.iter().map(|m| m.content.as_str()).collect();
    assert_eq!(contents, vec!["2", "1", "3"]);
    assert!(q.is_empty());
}

#[test]
fn full_queue_without_low_drops_incoming_low() {
    let mut q = MessageQueue::new();
    for i in 0..MAX_QUEUE_SIZE {
        q.push(Priority::Normal, "n".into(), format!("normal {i}"));
    }
    q.push(Priority::Low, "l".into(), "incoming low".into());
    assert_eq!(q.len(), MAX_QUEUE_SIZE);
    let all = q.drain_all();
    assert!(all.iter().all(|m| m.content != "incoming low"));
    assert_eq!(all[0].content, "normal 0");
}
