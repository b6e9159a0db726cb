use scorehub::event::{Event, EventQueue, FAR_FUTURE};

#[test]
fn new_queue_is_armed_far_future() {
    let q = EventQueue::new();
    assert_eq!(q.len(), 0);
    assert_eq!(q.wake_at(), FAR_FUTURE);
}

#[test]
fn two_deadlines_fire_in_deadline_order() {
    // Events due at now+5s (id=1) and now+2s (id=2): the first wait yields
    // id=2 at +2s, the second yields id=1 at +5s.
    let now: u64 = 100_000;
    let mut q = EventQueue::new();
    q.insert(Event { expires: now + 5_000, id: 1 });
    assert_eq!(q.wake_at(), now + 5_000);
    q.insert(Event { expires: now + 2_000, id: 2 });
    assert_eq!(q.wake_at(), now + 2_000);

    let first = q.next();
    assert_eq!(first.id, 2);
    assert_eq!(first.expires, now + 2_000);
    assert_eq!(q.wake_at(), now + 5_000);

    let second = q.next();
    assert_eq!(second.id, 1);
    assert_eq!(second.expires, now + 5_000);
    assert_eq!(q.wake_at(), FAR_FUTURE);
    assert_eq!(q.len(), 0);
}

#[test]
fn drain_is_monotone_with_ties_by_id() {
    let mut q = EventQueue::new();
    let inserted = [
        Event { expires: 900, id: 4 },
        Event { expires: 100, id: 9 },
        Event { expires: 500, id: 2 },
        Event { expires: 500, id: 1 },
        Event { expires: 100, id: 3 },
        Event { expires: 900, id: 4 },
    ];
    for e in inserted.iter() {
        q.insert(*e);
    }
    assert_eq!(q.len(), inserted.len());

    let mut drained = Vec::new();
    while q.len() > 0 {
        drained.push(q.next());
    }
    // Exactly as many come out as went in, in non-decreasing (expires, id)
    // order: equal deadlines are tie-broken by ascending id.
    assert_eq!(drained.len(), inserted.len());
    let expected = [(100, 3), (100, 9), (500, 1), (500, 2), (900, 4), (900, 4)];
    for (event, (expires, id)) in drained.iter().zip(expected.iter()) {
        assert_eq!(event.expires, *expires);
        assert_eq!(event.id, *id);
    }
}

#[test]
fn sentinel_expiry_is_still_deliverable() {
    let mut q = EventQueue::new();
    q.insert(Event { expires: FAR_FUTURE, id: 1 });
    assert_eq!(q.wake_at(), FAR_FUTURE);
    assert_eq!(q.len(), 1);
    let e = q.next();
    assert_eq!(e.id, 1);
    assert_eq!(q.len(), 0);
}

#[test]
fn past_deadline_pulls_wake_time_down() {
    // An event whose expiry already passed must still be deliverable: the
    // wake time drops to that expiry, so the wait returns at once instead
    // of sleeping.
    let now: u64 = 50_000;
    let mut q = EventQueue::new();
    q.insert(Event { expires: now + 60_000, id: 1 });
    q.insert(Event { expires: now - 10_000, id: 2 });
    assert!(q.wake_at() <= now);
    let e = q.next();
    assert_eq!(e.id, 2);
}
