use fellm::error::FellmError;
use fellm::ring::{ObjectMember, StorageObject, StorageProviderKind};
use fellm::scheduler::{check_cuda_provider, SchedOutcome, SchedRun, SchedStep, SlotState, StorageScheduler};

fn object(id: u64, len: u64, weights: &[u64]) -> StorageObject {
    let members = weights.iter().map(|w| ObjectMember { weight: *w, offset: 0, len: 10 }).collect();
    StorageObject { id, len, useful_bytes: 10 * weights.len() as u64, members }
}

fn scheduler() -> StorageScheduler {
    let catalog = vec![object(4, 600, &[40, 41]), object(5, 700, &[50]), object(6, 800, &[60]), object(7, 5000, &[70])];
    StorageScheduler::configure(catalog, &[40, 50, 60], 2, 1000).unwrap().unwrap()
}

fn drive(s: &mut StorageScheduler, run: &mut SchedRun) -> Vec<String> {
    let mut steps = Vec::new();
    let mut outcome = SchedOutcome::Carried;
    loop {
        let step = s.advance(run, outcome);
        outcome = match &step {
            SchedStep::UploadDirect(o) => {
                steps.push(format!("direct {o}"));
                SchedOutcome::Carried
            }
            SchedStep::QueueRead { object, len } => {
                steps.push(format!("queue {object} {len}"));
                SchedOutcome::Carried
            }
            SchedStep::AwaitRead(o) => {
                steps.push(format!("await {o}"));
                SchedOutcome::Finished { wait_nanos: 3 }
            }
            SchedStep::Upload { object, with_direct } => {
                steps.push(format!("upload {object} {with_direct}"));
                SchedOutcome::Carried
            }
            SchedStep::UploadGroup(g) => {
                steps.push(format!("group {g}"));
                SchedOutcome::Carried
            }
            SchedStep::Done => {
                steps.push("done".to_string());
                return steps;
            }
            SchedStep::Failed(_) => {
                steps.push("failed".to_string());
                return steps;
            }
        };
    }
}

#[test]
fn configure_selects_objects_of_streamed_weights() {
    let s = scheduler();
    assert_eq!(s.slot_count(), 2);
    assert_eq!(s.state_of(4), Some(SlotState::Empty));
    assert_eq!(s.state_of(7), None);
    assert!(StorageScheduler::configure(vec![object(4, 600, &[40])], &[], 2, 1000).unwrap().is_none());
    match StorageScheduler::configure(vec![object(4, 2000, &[40])], &[40], 2, 1000) {
        Err(FellmError::Other(m)) => assert_eq!(m, "storage object 4 exceeds bounded staging slot: 2000 > 1000"),
        _ => panic!("expected an oversized object"),
    }
    assert_eq!(StorageScheduler::configure(vec![object(4, 600, &[40])], &[40], 0, 1000).unwrap().unwrap().slot_count(), 1);
}

#[test]
fn required_groups_read_upload_and_count() {
    let mut s = scheduler();
    let mut run = s.begin_prefetch(9, &[40, 99, 50], true, true);
    let steps = drive(&mut s, &mut run);
    assert_eq!(
        steps,
        vec!["queue 4 600", "await 4", "upload 4 true", "queue 5 700", "await 5", "upload 5 false", "done"]
    );
    assert_eq!(s.slot(0), Some(4));
    assert_eq!(s.slot(1), Some(5));
    assert_eq!(s.state_of(4), Some(SlotState::InUse));
    let mut run = s.begin_prefetch(10, &[50], true, true);
    assert_eq!(drive(&mut s, &mut run), vec!["done"]);
    let c = s.counts();
    assert_eq!((c.required_requests, c.resident_hits, c.prefetch_hits, c.prefetch_misses), (3, 1, 0, 2));
    assert_eq!(c.useful_bytes, 30);
    assert_eq!(c.wait_nanos, 6);
}

#[test]
fn read_ahead_then_demand_displaces_the_slot() {
    let mut s = scheduler();
    let mut run = s.begin_prefetch(1, &[40], true, true);
    drive(&mut s, &mut run);
    let mut run = s.begin_prefetch(2, &[60], false, true);
    assert_eq!(drive(&mut s, &mut run), vec!["queue 6 800", "done"]);
    assert_eq!(s.queued_reads(), vec![6]);
    assert_eq!(s.state_of(6), Some(SlotState::ReadQueued));
    let mut run = s.begin_prefetch(3, &[60], true, true);
    assert_eq!(drive(&mut s, &mut run), vec!["await 6", "upload 6 false", "done"]);
    assert_eq!(s.slot(0), Some(6));
    assert_eq!(s.state_of(4), Some(SlotState::Empty));
    assert_eq!(s.counts().prefetch_hits, 1);
}

#[test]
fn ram_weights_go_with_a_resident_object_or_alone() {
    let mut s = scheduler();
    let mut run = s.begin_prefetch(1, &[50], true, true);
    drive(&mut s, &mut run);
    let mut run = s.begin_prefetch(2, &[99, 50], false, true);
    assert_eq!(drive(&mut s, &mut run), vec!["direct 5", "done"]);
    let mut run = s.begin_prefetch(3, &[99], true, true);
    assert_eq!(drive(&mut s, &mut run), vec!["group 3", "done"]);
    assert_eq!(s.slot(1), None);
    assert_eq!(s.state_of(5), Some(SlotState::Empty));
    let mut run = s.begin_prefetch(4, &[40, 99], true, false);
    assert_eq!(drive(&mut s, &mut run), vec!["done"]);
}

#[test]
fn failures_end_the_prefetch() {
    let mut s = scheduler();
    let mut run = s.begin_prefetch(1, &[40], true, true);
    assert!(matches!(s.advance(&mut run, SchedOutcome::Carried), SchedStep::QueueRead { object: 4, len: 600 }));
    assert!(matches!(s.advance(&mut run, SchedOutcome::Carried), SchedStep::AwaitRead(4)));
    match s.advance(&mut run, SchedOutcome::Failed(FellmError::other("worker stopped"))) {
        SchedStep::Failed(FellmError::Other(m)) => assert_eq!(m, "worker stopped"),
        _ => panic!("expected the failure"),
    }
    assert!(run.is_over());
}

#[test]
fn cuda_provider_checks() {
    assert!(check_cuda_provider(StorageProviderKind::Buffered, false).is_ok());
    assert!(check_cuda_provider(StorageProviderKind::Direct, true).is_ok());
    let msg = |r: Result<(), FellmError>| match r {
        Err(FellmError::Other(m)) => m,
        _ => panic!("expected an error"),
    };
    assert_eq!(msg(check_cuda_provider(StorageProviderKind::Direct, false)), "direct I/O provider requires Linux");
    assert_eq!(
        msg(check_cuda_provider(StorageProviderKind::IoUring, true)),
        "io_uring was selected without an operational provider"
    );
    assert_eq!(msg(check_cuda_provider(StorageProviderKind::Gds, true)), "GDS was selected without an operational provider");
}

#[test]
fn streaming_runs_queue_the_whole_group_and_count_nothing() {
    let mut s = scheduler();
    let mut run = s.begin_prefetch(1, &[40, 50, 60], false, true);
    assert_eq!(drive(&mut s, &mut run), vec!["queue 4 600", "queue 5 700", "queue 6 800", "done"]);
    assert_eq!(s.queued_reads(), vec![4, 5, 6]);
    let mut run = s.begin_prefetch(2, &[60, 40], false, true);
    assert_eq!(drive(&mut s, &mut run), vec!["done"]);
    let c = s.counts();
    assert_eq!((c.required_requests, c.resident_hits, c.prefetch_hits, c.prefetch_misses), (0, 0, 0, 0));
}
