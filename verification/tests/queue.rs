use thumb_queue::queue::{JobQueue, PopResult, PushResult};
use thumb_queue::ImagePostUploadJob;

fn job(id: usize, file_name: &str) -> ImagePostUploadJob {
    ImagePostUploadJob {
        id,
        file_name: file_name.to_string(),
        dir: "uploads".to_string(),
    }
}

#[test]
fn fifo_delivery_in_push_order() {
    let mut q = JobQueue::new(100);
    assert!(matches!(q.push(job(1, "abc.png")), PushResult::Accepted));
    assert!(matches!(q.push(job(2, "def.jpg")), PushResult::Accepted));
    match q.pop() {
        PopResult::Job(j) => assert_eq!(j.id, 1),
        _ => panic!("expected first job"),
    }
    match q.pop() {
        PopResult::Job(j) => assert_eq!(j.id, 2),
        _ => panic!("expected second job"),
    }
    assert!(matches!(q.pop(), PopResult::Empty));
}

#[test]
fn every_pushed_job_is_delivered_exactly_once() {
    let mut q = JobQueue::new(10);
    for id in 0..10usize {
        assert!(matches!(q.push(job(id, "f.png")), PushResult::Accepted));
    }
    q.close();
    let mut seen: Vec<usize> = Vec::new();
    loop {
        match q.pop() {
            PopResult::Job(j) => seen.push(j.id),
            PopResult::NoMoreWork => break,
            PopResult::Empty => panic!("closed queue must not ask to wait"),
        }
    }
    assert_eq!(seen, (0..10usize).collect::<Vec<_>>());
}

#[test]
fn full_queue_applies_backpressure() {
    let mut q = JobQueue::new(2);
    assert!(matches!(q.push(job(1, "a.png")), PushResult::Accepted));
    assert!(matches!(q.push(job(2, "b.png")), PushResult::Accepted));
    assert!(matches!(q.push(job(3, "c.png")), PushResult::Full));
    // a pop frees capacity
    assert!(matches!(q.pop(), PopResult::Job(_)));
    assert!(matches!(q.push(job(3, "c.png")), PushResult::Accepted));
}

#[test]
fn closed_queue_refuses_pushes_but_drains() {
    let mut q = JobQueue::new(5);
    assert!(matches!(q.push(job(1, "a.png")), PushResult::Accepted));
    q.close();
    assert!(matches!(q.push(job(2, "b.png")), PushResult::Closed));
    match q.pop() {
        PopResult::Job(j) => assert_eq!(j.id, 1),
        _ => panic!("pending job still owed after close"),
    }
    assert!(matches!(q.pop(), PopResult::NoMoreWork));
}

#[test]
fn drained_closed_queue_never_blocks_again() {
    let mut q = JobQueue::new(3);
    q.close();
    for _ in 0..5 {
        assert!(matches!(q.pop(), PopResult::NoMoreWork));
    }
}

#[test]
fn close_is_idempotent() {
    let mut q = JobQueue::new(3);
    q.close();
    q.close();
    assert!(matches!(q.pop(), PopResult::NoMoreWork));
}
