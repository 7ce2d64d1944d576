use futures_mio::fold::{new, Fold, FoldEvent, FoldNext, FoldState, ScheduleTarget};
use futures_mio::poll::Poll;

/// A stream outcome script and a future outcome script, played by a driver
/// that follows the machine's instructions the way a `poll` does.
struct Script {
    stream: Vec<Poll<Option<u32>, String>>,
    futures: Vec<Poll<u64, String>>,
    applied: Vec<(u64, u32)>,
}

type TestFold = Fold<(), (), u64, u64>;

fn poll_once(fold: &mut TestFold, script: &mut Script) -> Poll<u64, String> {
    loop {
        let next = match fold.state {
            FoldState::Empty => panic!("cannot poll Fold twice"),
            FoldState::Ready(_) => {
                let r = script.stream.remove(0);
                fold.feed::<u32, String>(FoldEvent::Streamed(r))
            }
            FoldState::Processing(_) => {
                let r = script.futures.remove(0);
                fold.feed::<u32, String>(FoldEvent::Resolved(r))
            }
        };
        match next {
            FoldNext::Apply(acc, item) => {
                script.applied.push((acc, item));
                // The folding function adds; its future is identified by the sum.
                let fut = acc + item as u64;
                let again = fold.feed::<u32, String>(FoldEvent::Started(fut));
                assert!(matches!(again, FoldNext::Again));
            }
            FoldNext::Again => {}
            FoldNext::Return(p) => return p,
        }
    }
}

#[test]
fn fold_new_starts_ready() {
    let f: TestFold = new((), (), 7);
    assert!(matches!(f.state, FoldState::Ready(7)));
}

#[test]
fn fold_sums_items() {
    let mut f: TestFold = new((), (), 0);
    let mut s = Script {
        stream: vec![Poll::Ready(Some(1)), Poll::Ready(Some(2)), Poll::Ready(Some(3)), Poll::Ready(None)],
        futures: vec![Poll::Ready(1), Poll::Ready(3), Poll::Ready(6)],
        applied: vec![],
    };
    let r = poll_once(&mut f, &mut s);
    assert!(matches!(r, Poll::Ready(6)));
    assert_eq!(s.applied, vec![(0, 1), (1, 2), (3, 3)]);
    assert!(matches!(f.state, FoldState::Empty));
}

#[test]
fn fold_of_empty_stream_is_initial_value() {
    let mut f: TestFold = new((), (), 42);
    let mut s = Script { stream: vec![Poll::Ready(None)], futures: vec![], applied: vec![] };
    assert!(matches!(poll_once(&mut f, &mut s), Poll::Ready(42)));
    assert!(s.applied.is_empty());
}

#[test]
fn fold_not_ready_resumes_with_same_result() {
    let mut f: TestFold = new((), (), 0);
    let mut s = Script {
        stream: vec![
            Poll::NotReady,
            Poll::Ready(Some(4)),
            Poll::NotReady,
            Poll::Ready(Some(5)),
            Poll::Ready(None),
        ],
        futures: vec![Poll::NotReady, Poll::Ready(4), Poll::Ready(9)],
        applied: vec![],
    };
    assert!(matches!(poll_once(&mut f, &mut s), Poll::NotReady));
    assert!(matches!(f.state, FoldState::Ready(0)));
    assert!(matches!(poll_once(&mut f, &mut s), Poll::NotReady));
    assert!(matches!(f.state, FoldState::Processing(4)));
    assert!(matches!(poll_once(&mut f, &mut s), Poll::NotReady));
    assert!(matches!(f.state, FoldState::Ready(4)));
    assert!(matches!(poll_once(&mut f, &mut s), Poll::Ready(9)));
    assert_eq!(s.applied, vec![(0, 4), (4, 5)]);
}

#[test]
fn fold_stream_error_ends_fold() {
    let mut f: TestFold = new((), (), 0);
    let mut s = Script {
        stream: vec![Poll::Ready(Some(1)), Poll::Error("boom".to_string())],
        futures: vec![Poll::Ready(1)],
        applied: vec![],
    };
    match poll_once(&mut f, &mut s) {
        Poll::Error(e) => assert_eq!(e, "boom"),
        other => panic!("unexpected {:?}", other),
    }
    assert!(matches!(f.state, FoldState::Empty));
}

#[test]
fn fold_future_error_ends_fold() {
    let mut f: TestFold = new((), (), 0);
    let mut s = Script {
        stream: vec![Poll::Ready(Some(1))],
        futures: vec![Poll::Error("bad future".to_string())],
        applied: vec![],
    };
    match poll_once(&mut f, &mut s) {
        Poll::Error(e) => assert_eq!(e, "bad future"),
        other => panic!("unexpected {:?}", other),
    }
    assert!(matches!(f.state, FoldState::Empty));
}

#[test]
fn fold_feed_single_steps() {
    let mut f: TestFold = new((), (), 10);
    let n = f.feed::<u32, String>(FoldEvent::Streamed(Poll::Ready(Some(5))));
    assert!(matches!(n, FoldNext::Apply(10, 5)));
    assert!(matches!(f.state, FoldState::Empty));
    let n = f.feed::<u32, String>(FoldEvent::Started(77));
    assert!(matches!(n, FoldNext::Again));
    assert!(matches!(f.state, FoldState::Processing(77)));
    let n = f.feed::<u32, String>(FoldEvent::Resolved(Poll::NotReady));
    assert!(matches!(n, FoldNext::Return(Poll::NotReady)));
    assert!(matches!(f.state, FoldState::Processing(77)));
    let n = f.feed::<u32, String>(FoldEvent::Resolved(Poll::Ready(15)));
    assert!(matches!(n, FoldNext::Again));
    assert!(matches!(f.state, FoldState::Ready(15)));
    let n = f.feed::<u32, String>(FoldEvent::Streamed(Poll::NotReady));
    assert!(matches!(n, FoldNext::Return(Poll::NotReady)));
    assert!(matches!(f.state, FoldState::Ready(15)));
    let n = f.feed::<u32, String>(FoldEvent::Streamed(Poll::Ready(None)));
    assert!(matches!(n, FoldNext::Return(Poll::Ready(15))));
    assert!(matches!(f.state, FoldState::Empty));
}

#[test]
fn fold_schedule_target_follows_state() {
    let mut f: TestFold = new((), (), 1);
    assert_eq!(f.schedule_target(), ScheduleTarget::Stream);
    let _ = f.feed::<u32, String>(FoldEvent::Streamed(Poll::Ready(Some(2))));
    let _ = f.feed::<u32, String>(FoldEvent::Started(3));
    assert_eq!(f.schedule_target(), ScheduleTarget::Future);
}
