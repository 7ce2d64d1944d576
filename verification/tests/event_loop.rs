use futures_mio::event_loop::{Dispatch, Registry, CHANNEL_TOKEN};

#[test]
fn registry_starts_at_token_one() {
    let r: Registry<&str> = Registry::new();
    assert_eq!(r.next_token(), 1);
    assert!(!r.is_waiting(1));
}

#[test]
fn registry_tokens_are_distinct_and_nonzero() {
    let mut r: Registry<&str> = Registry::new();
    let mut seen = Vec::new();
    for _ in 0..100 {
        let t = r.allocate();
        assert_ne!(t, CHANNEL_TOKEN);
        assert!(!seen.contains(&t));
        seen.push(t);
    }
    assert_eq!(seen[0], 1);
    assert_eq!(seen[99], 100);
    assert_eq!(r.next_token(), 101);
}

#[test]
fn registry_fresh_token_parks_without_displacing() {
    let mut r: Registry<&str> = Registry::new();
    let t = r.allocate();
    assert!(!r.is_waiting(t));
    assert!(r.park(t, "a").is_none());
    assert!(r.is_waiting(t));
    let u = r.allocate();
    assert!(!r.is_waiting(u));
    assert!(r.park(u, "b").is_none());
    assert!(matches!(r.dispatch(t), Dispatch::Wake("a")));
}

#[test]
fn registry_wakes_parked_waiter_once() {
    let mut r: Registry<&str> = Registry::new();
    let t = r.allocate();
    let u = r.allocate();
    r.park(t, "w");
    r.park(u, "v");
    assert!(matches!(r.dispatch(u), Dispatch::Wake("v")));
    assert!(matches!(r.dispatch(t), Dispatch::Wake("w")));
    assert!(matches!(r.dispatch(t), Dispatch::Stale));
    assert!(!r.is_waiting(t));
}

#[test]
fn registry_channel_event_drains() {
    let mut r: Registry<&str> = Registry::new();
    let t = r.allocate();
    r.park(t, "w");
    assert!(matches!(r.dispatch(CHANNEL_TOKEN), Dispatch::Drain));
    assert!(r.is_waiting(t));
}

#[test]
fn registry_unknown_token_is_stale() {
    let mut r: Registry<&str> = Registry::new();
    assert!(matches!(r.dispatch(5), Dispatch::Stale));
}

#[test]
fn registry_settle_success_parks() {
    let mut r: Registry<&str> = Registry::new();
    let t = r.allocate();
    assert!(r.settle::<String>(t, "w", Ok(())).is_none());
    assert!(r.is_waiting(t));
}

#[test]
fn registry_settle_failure_hands_waiter_back() {
    let mut r: Registry<&str> = Registry::new();
    let t = r.allocate();
    let back = r.settle(t, "w", Err("refused".to_string()));
    assert_eq!(back, Some(("w", "refused".to_string())));
    assert!(!r.is_waiting(t));
}

#[test]
fn registry_waiter_survives_other_operations() {
    let mut r: Registry<&str> = Registry::new();
    let t = r.allocate();
    r.park(t, "w");
    for _ in 0..5 {
        let u = r.allocate();
        r.park(u, "other");
        assert!(matches!(r.dispatch(u), Dispatch::Wake("other")));
        assert!(matches!(r.dispatch(CHANNEL_TOKEN), Dispatch::Drain));
        assert!(matches!(r.dispatch(u + 1000), Dispatch::Stale));
    }
    assert!(matches!(r.dispatch(t), Dispatch::Wake("w")));
    assert!(matches!(r.dispatch(t), Dispatch::Stale));
}
