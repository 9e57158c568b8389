use thumb_queue::queue::{JobQueue, PopResult, PushResult};
use thumb_queue::worker::{WorkerAction, WorkerPhase, WorkerState};
use thumb_queue::ImagePostUploadJob;

fn job(id: usize, file_name: &str) -> ImagePostUploadJob {
    ImagePostUploadJob {
        id,
        file_name: file_name.to_string(),
        dir: "uploads".to_string(),
    }
}

#[test]
fn start_banner_names_the_worker() {
    let mut w = WorkerState::new(3);
    assert_eq!(w.phase_now(), WorkerPhase::Starting);
    let line = w.on_started();
    assert_eq!(line, "[Worker 3] started");
    assert_eq!(w.phase_now(), WorkerPhase::Running);
}

#[test]
fn one_worker_processes_jobs_in_pop_order() {
    // a pool of one worker and two queued jobs: the status lines come out
    // in the order the jobs were popped
    let mut q = JobQueue::new(100);
    assert!(matches!(q.push(job(1, "abc.png")), PushResult::Accepted));
    assert!(matches!(q.push(job(2, "def.jpg")), PushResult::Accepted));
    q.close();
    let mut w = WorkerState::new(0);
    w.on_started();
    let mut lines: Vec<String> = Vec::new();
    loop {
        let r = q.pop();
        match w.on_pop(&r) {
            WorkerAction::Process => {
                if let PopResult::Job(j) = r {
                    lines.push(w.on_processed(&j, true));
                } else {
                    panic!("Process decided without a job");
                }
            }
            WorkerAction::Wait => panic!("closed queue must not ask to wait"),
            WorkerAction::Finish => break,
        }
    }
    w.on_drained();
    assert_eq!(w.phase_now(), WorkerPhase::Stopped);
    assert_eq!(
        lines,
        vec![
            "Worker 0 processed job for: abc.png".to_string(),
            "Worker 0 processed job for: def.jpg".to_string(),
        ]
    );
}

#[test]
fn failure_logs_one_error_line_and_worker_survives() {
    // a job whose source file does not exist: the thumbnail attempt fails,
    // one error line is recorded, and the worker keeps taking work
    let mut w = WorkerState::new(1);
    w.on_started();
    let missing = job(9, "ghost.png");
    let line = w.on_processed(&missing, false);
    assert_eq!(line, "Worker 1 failed job for: ghost.png");
    assert_eq!(w.phase_now(), WorkerPhase::Running);
    let next = job(10, "real.png");
    let line2 = w.on_processed(&next, true);
    assert_eq!(line2, "Worker 1 processed job for: real.png");
}

#[test]
fn empty_closed_queue_stops_worker_without_a_dummy_job() {
    // closing with zero jobs pending moves the worker to Stopped
    let mut q = JobQueue::new(100);
    q.close();
    let mut w = WorkerState::new(2);
    w.on_started();
    let r = q.pop();
    assert!(matches!(r, PopResult::NoMoreWork));
    assert_eq!(w.on_pop(&r), WorkerAction::Finish);
    assert_eq!(w.phase_now(), WorkerPhase::Draining);
    w.on_drained();
    assert_eq!(w.phase_now(), WorkerPhase::Stopped);
}

#[test]
fn invalid_payload_is_dropped_with_an_error_line() {
    let mut w = WorkerState::new(4);
    w.on_started();
    let line = w.on_invalid_payload();
    assert_eq!(line, "Worker 4 dropped an invalid job payload");
    assert_eq!(w.phase_now(), WorkerPhase::Running);
}

#[test]
fn open_empty_queue_asks_the_worker_to_wait() {
    let mut q = JobQueue::new(100);
    let mut w = WorkerState::new(5);
    w.on_started();
    let r = q.pop();
    assert!(matches!(r, PopResult::Empty));
    assert_eq!(w.on_pop(&r), WorkerAction::Wait);
    assert_eq!(w.phase_now(), WorkerPhase::Running);
}
