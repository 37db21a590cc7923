use fellm::error::FellmError;
use fellm::ring::{
    check_cpu_provider, CpuWeightRing, ObjectMember, PrefetchRun, RingStep, StepOutcome, StorageObject,
    StorageProviderKind, WeightSite,
};

fn object(id: u64, len: u64, weights: &[u64]) -> StorageObject {
    let members = weights
        .iter()
        .enumerate()
        .map(|(i, w)| ObjectMember { weight: *w, offset: 100 * i as u64, len: 100 })
        .collect();
    StorageObject { id, len, useful_bytes: 100 * weights.len() as u64, members }
}

fn catalog() -> Vec<StorageObject> {
    vec![object(1, 1000, &[10, 11]), object(2, 5000, &[20]), object(3, 300, &[30, 31])]
}

/// Drive a prefetch, answering every read as started and finished; returns the steps.
fn drive(ring: &mut CpuWeightRing, run: &mut PrefetchRun) -> Vec<String> {
    let mut steps = Vec::new();
    let mut outcome = StepOutcome::Carried;
    loop {
        let step = ring.advance(run, outcome);
        outcome = match &step {
            RingStep::Read { object, len } => {
                steps.push(format!("read {object} {len}"));
                StepOutcome::Carried
            }
            RingStep::Await(o) => {
                steps.push(format!("await {o}"));
                StepOutcome::Finished { read_nanos: 7, wait_nanos: 2 }
            }
            RingStep::Reclaim(o) => {
                steps.push(format!("reclaim {o}"));
                StepOutcome::Finished { read_nanos: 5, wait_nanos: 0 }
            }
            RingStep::Place(slot) => {
                steps.push(format!("place {slot}"));
                StepOutcome::Carried
            }
            RingStep::Done => {
                steps.push("done".to_string());
                return steps;
            }
            RingStep::Failed(FellmError::Other(m)) => {
                steps.push(format!("failed {m}"));
                return steps;
            }
            RingStep::Failed(_) => {
                steps.push("failed".to_string());
                return steps;
            }
        };
    }
}

#[test]
fn configure_sizes_slots_to_the_largest_extent() {
    let ring = CpuWeightRing::configure(catalog(), 1, 4096, true);
    assert_eq!(ring.slot_count(), 2);
    assert_eq!(ring.idle_count(), 2);
    let c = ring.counts(StorageProviderKind::Direct);
    assert_eq!(c.staging_bytes, 2 * 8192);
    assert_eq!(c.physical_reads, 0);
    let ring = CpuWeightRing::configure(vec![], 3, 0, true);
    assert_eq!(ring.counts(StorageProviderKind::Mmap).staging_bytes, 3 * 4096);
}

#[test]
fn required_prefetch_reads_awaits_and_places_each_object() {
    let mut ring = CpuWeightRing::configure(catalog(), 2, 0, false);
    let (mut run, evicted) = ring.begin_prefetch(&[10, 20, 11, 99], true);
    assert!(evicted.is_empty());
    let steps = drive(&mut ring, &mut run);
    assert_eq!(steps, vec!["read 1 1000", "await 1", "place 0", "read 2 5000", "await 2", "place 1", "done"]);
    assert!(run.is_over());
    assert_eq!(ring.locate_weight(11).unwrap(), Some(WeightSite { slot: 0, offset: 100, len: 100 }));
    assert_eq!(ring.locate_weight(20).unwrap(), Some(WeightSite { slot: 1, offset: 0, len: 100 }));
    assert_eq!(ring.locate_weight(99).unwrap(), None);
    let c = ring.counts(StorageProviderKind::Buffered);
    assert_eq!(c.physical_reads, 2);
    assert_eq!(c.physical_bytes, 6000);
    assert_eq!(c.buffered_storage_bytes, 6000);
    assert_eq!(c.direct_storage_bytes, 0);
    assert_eq!(c.storage_stall_nanos, 4);
    assert_eq!(c.read_nanos, 14);
    assert_eq!(c.resident_dense_bytes, 6000);
}

#[test]
fn resident_objects_are_not_read_again_and_unneeded_ones_are_evicted() {
    let mut ring = CpuWeightRing::configure(catalog(), 2, 0, false);
    let (mut run, _) = ring.begin_prefetch(&[10, 20], true);
    drive(&mut ring, &mut run);
    let (mut run, evicted) = ring.begin_prefetch(&[20, 30], true);
    assert_eq!(evicted, vec![0]);
    assert_eq!(ring.idle_count(), 1);
    let steps = drive(&mut ring, &mut run);
    assert_eq!(steps, vec!["read 3 300", "await 3", "place 0", "done"]);
    assert_eq!(ring.resident(0).unwrap().object, 3);
    assert_eq!(ring.resident(1).unwrap().object, 2);
    match ring.locate_weight(10) {
        Err(FellmError::Other(m)) => assert_eq!(m, "CPU weight 10 was not published before kernel launch"),
        _ => panic!("expected an unpublished weight"),
    }
}

#[test]
fn read_ahead_only_with_overlap_and_reclaimed_when_needed() {
    let mut ring = CpuWeightRing::configure(catalog(), 2, 0, false);
    let (mut run, _) = ring.begin_prefetch(&[10], false);
    assert_eq!(drive(&mut ring, &mut run), vec!["done"]);
    assert_eq!(ring.idle_count(), 2);

    let mut ring = CpuWeightRing::configure(catalog(), 2, 0, true);
    let (mut run, _) = ring.begin_prefetch(&[10, 30], false);
    assert_eq!(drive(&mut ring, &mut run), vec!["read 1 1000", "read 3 300", "done"]);
    assert_eq!(ring.reads_in_flight(), vec![1, 3]);
    assert_eq!(ring.idle_count(), 0);
    let (mut run, _) = ring.begin_prefetch(&[20], true);
    let steps = drive(&mut ring, &mut run);
    assert_eq!(steps, vec!["reclaim 1", "read 2 5000", "await 2", "place 0", "done"]);
    assert_eq!(ring.reads_in_flight(), vec![3]);
    assert_eq!(ring.counts(StorageProviderKind::PageCache).physical_reads, 2);
}

#[test]
fn required_prefetch_without_a_buffer_fails() {
    let mut ring = CpuWeightRing::configure(catalog(), 2, 0, true);
    let (mut run, _) = ring.begin_prefetch(&[10, 30], false);
    drive(&mut ring, &mut run);
    let (mut run, _) = ring.begin_prefetch(&[10, 30, 20], true);
    let steps = drive(&mut ring, &mut run);
    assert_eq!(
        steps,
        vec!["await 1", "place 0", "await 3", "place 1", "failed CPU storage ring has no demand slot"]
    );
}

#[test]
fn failed_reads_end_the_prefetch() {
    let mut ring = CpuWeightRing::configure(catalog(), 2, 0, false);
    let (mut run, _) = ring.begin_prefetch(&[10], true);
    let step = ring.advance(&mut run, StepOutcome::Carried);
    assert!(matches!(step, RingStep::Read { object: 1, len: 1000 }));
    let step = ring.advance(&mut run, StepOutcome::Failed(FellmError::other("disk gone")));
    match step {
        RingStep::Failed(FellmError::Other(m)) => assert_eq!(m, "disk gone"),
        _ => panic!("expected the read failure"),
    }
    assert!(run.is_over());
    assert_eq!(ring.idle_count(), 1);
}

#[test]
fn provider_checks() {
    assert!(check_cpu_provider(StorageProviderKind::Mmap, 3, false).is_ok());
    assert!(check_cpu_provider(StorageProviderKind::Direct, 3, true).is_ok());
    let msg = |r: Result<(), FellmError>| match r {
        Err(FellmError::Other(m)) => m,
        _ => panic!("expected an error"),
    };
    assert_eq!(msg(check_cpu_provider(StorageProviderKind::Mmap, 0, true)), "CPU storage weight catalog is empty");
    assert_eq!(msg(check_cpu_provider(StorageProviderKind::IoUring, 2, true)), "io_uring provider is not operational");
    assert_eq!(msg(check_cpu_provider(StorageProviderKind::Gds, 2, true)), "GDS cannot feed CPU execution");
    assert_eq!(msg(check_cpu_provider(StorageProviderKind::Direct, 2, false)), "native direct I/O unavailable");
}
