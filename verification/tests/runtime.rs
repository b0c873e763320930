use lunar::runtime::{Coroutine, Df, Runtime, RuntimeError};

fn coroutine(id: u64) -> Coroutine {
    Coroutine { id, block: 7, ctx: 0 }
}

#[test]
fn request_before_submit_parks_and_resumes() {
    let mut rt = Runtime::new();
    let id = rt.alloc_dfid();
    let consumer = rt.spawn(1, 100);
    // nothing submitted yet: the consumer parks
    assert_eq!(rt.request(id, consumer), None);
    // the producing submit hands the parked consumer back for re-spawning
    let resumed = rt.submit(Df { id, slot: 42 }).unwrap();
    assert_eq!(resumed, vec![consumer]);
    // a replayed request now sees the value
    let got = rt.request(id, consumer).unwrap();
    assert_eq!(got, Df { id, slot: 42 });
}

#[test]
fn submit_without_waiters_fills_silently() {
    let mut rt = Runtime::new();
    let id = rt.alloc_dfid();
    let resumed = rt.submit(Df { id, slot: 5 }).unwrap();
    assert!(resumed.is_empty());
    assert_eq!(rt.poll(id), Some(Df { id, slot: 5 }));
}

#[test]
fn double_submit_is_fatal() {
    let mut rt = Runtime::new();
    let id = rt.alloc_dfid();
    rt.submit(Df { id, slot: 1 }).unwrap();
    let err = rt.submit(Df { id, slot: 2 }).unwrap_err();
    assert_eq!(err, RuntimeError::DoubleAssign(id));
}

#[test]
fn dataflow_ids_are_fresh() {
    let mut rt = Runtime::new();
    assert_eq!(rt.alloc_dfid(), 0);
    assert_eq!(rt.alloc_dfid(), 1);
    assert_eq!(rt.alloc_dfid(), 2);
}

#[test]
fn coroutine_ids_are_fresh() {
    let mut rt = Runtime::new();
    let a = rt.spawn(1, 10);
    let b = rt.spawn(1, 20);
    assert_eq!(a.id, 0);
    assert_eq!(b.id, 1);
    assert_eq!(b.ctx, 20);
}

#[test]
fn poll_of_empty_entry_is_none() {
    let mut rt = Runtime::new();
    let id = rt.alloc_dfid();
    assert_eq!(rt.poll(id), None);
    rt.request(id, coroutine(9));
    assert_eq!(rt.poll(id), None);
}

#[test]
fn every_waiter_resumes_once_everything_is_submitted() {
    let mut rt = Runtime::new();
    let a = rt.alloc_dfid();
    let b = rt.alloc_dfid();
    let w1 = coroutine(1);
    let w2 = coroutine(2);
    let w3 = coroutine(3);
    assert_eq!(rt.request(a, w1), None);
    assert_eq!(rt.request(a, w2), None);
    assert_eq!(rt.request(b, w3), None);
    let mut resumed = rt.submit(Df { id: a, slot: 0 }).unwrap();
    resumed.extend(rt.submit(Df { id: b, slot: 0 }).unwrap());
    resumed.sort_by_key(|c| c.id);
    assert_eq!(resumed, vec![w1, w2, w3]);
}
