use iobench::pattern::{access_seq, IoSequence};
use iobench::ring::{CompletionError, RingPass, Submission};
use iobench::tasks::{AsyncPass, TaskStart};

/// Drives a ring pass to its end, completing the oldest outstanding
/// operation first, and returns every submission made.
fn run_ring(pass: &mut RingPass, first: Vec<Submission>, window: usize, result: i32) -> Vec<Submission> {
    let mut all = first.clone();
    let mut queue: std::collections::VecDeque<Submission> = first.into_iter().collect();
    while let Some(s) = queue.pop_front() {
        assert!(pass.in_flight() <= window);
        match pass.complete(s.slot, result).unwrap() {
            Some(next) => {
                assert_eq!(next.slot, s.slot);
                all.push(next);
                queue.push_back(next);
            }
            None => {}
        }
    }
    all
}

#[test]
fn ring_one_mebibyte_in_64k_blocks() {
    let pages = access_seq(IoSequence::Sequential, 16);
    let (mut pass, first) = RingPass::start(pages, 1 << 20, 65536, 4);
    assert_eq!(first.len(), 4);
    assert_eq!(pass.in_flight(), 4);
    let all = run_ring(&mut pass, first, 4, 65536);
    assert!(pass.is_finished());
    assert_eq!(pass.in_flight(), 0);
    assert_eq!(all.len(), 16);
    let offs: Vec<u64> = all.iter().map(|s| s.offset).collect();
    let expected: Vec<u64> = (0..16).map(|k| k * 65536).collect();
    assert_eq!(offs, expected);
}

#[test]
fn ring_completions_out_of_order() {
    let pages = access_seq(IoSequence::Random, 10);
    let (mut pass, first) = RingPass::start(pages.clone(), 10 * 4096, 4096, 3);
    let mut busy: Vec<u64> = first.iter().map(|s| s.slot).collect();
    let mut offs: Vec<u64> = first.iter().map(|s| s.offset).collect();
    while let Some(slot) = busy.pop() {
        if let Some(next) = pass.complete(slot, 4096).unwrap() {
            offs.push(next.offset);
            busy.insert(0, next.slot);
        }
        assert!(pass.in_flight() <= 3);
    }
    assert!(pass.is_finished());
    let expected: Vec<u64> = pages.iter().map(|p| p * 4096).collect();
    assert_eq!(offs, expected);
}

#[test]
fn ring_window_larger_than_file() {
    let (mut pass, first) = RingPass::start(vec![1, 0], 2 * 512, 512, 8);
    assert_eq!(first, vec![Submission { slot: 0, offset: 512 }, Submission { slot: 1, offset: 0 }]);
    assert_eq!(pass.complete(1, 512), Ok(None));
    assert_eq!(pass.complete(0, 512), Ok(None));
    assert!(pass.is_finished());
}

#[test]
fn ring_empty_file() {
    let (pass, first) = RingPass::start(vec![], 0, 4096, 4);
    assert!(first.is_empty());
    assert!(pass.is_finished());
}

#[test]
fn ring_short_transfer_aborts() {
    let pages = access_seq(IoSequence::Sequential, 4);
    let (mut pass, _) = RingPass::start(pages, 4 * 4096, 4096, 2);
    assert_eq!(pass.complete(0, 100), Err(CompletionError::ShortTransfer(100)));
    assert_eq!(pass.complete(0, -5), Err(CompletionError::Failed(-5)));
    assert_eq!(pass.complete(7, 4096), Err(CompletionError::UnknownSlot(7)));
    assert_eq!(pass.in_flight(), 2);
    assert!(!pass.is_finished());
    assert_eq!(pass.complete(0, 4096), Ok(Some(Submission { slot: 0, offset: 8192 })));
    assert_eq!(pass.complete(0, 4096), Ok(Some(Submission { slot: 0, offset: 12288 })));
    assert_eq!(pass.complete(0, 4096), Ok(None));
    assert_eq!(pass.complete(0, 4096), Err(CompletionError::UnknownSlot(0)));
}

/// Drives a task pass to its end, completing tasks newest first, and checks
/// at each step that no two running tasks share a buffer.
fn run_tasks(pass: &mut AsyncPass, first: Vec<TaskStart>, window: usize, bs: i64) -> Vec<TaskStart> {
    let mut all = first.clone();
    let mut running = first;
    while let Some(t) = running.pop() {
        assert!(pass.in_flight() <= window);
        if let Some(next) = pass.complete(t.slot, bs).unwrap() {
            assert!(running.iter().all(|r| r.buffer != next.buffer));
            all.push(next);
            running.insert(0, next);
        }
    }
    all
}

#[test]
fn tasks_write_then_read_round_trip() {
    let pages = access_seq(IoSequence::Random, 12);
    let (mut write, first) = AsyncPass::start(pages.clone(), 12 * 4096, 4096, 4, true);
    assert_eq!(first.len(), 4);
    assert!(first.iter().all(|t| t.fresh));
    let writes = run_tasks(&mut write, first, 4, 4096);
    assert!(write.is_finished());
    assert_eq!(writes.len(), 12);
    assert_eq!(writes.iter().filter(|t| t.fresh).count(), 4);
    assert!(writes.iter().all(|t| t.buffer < 4));

    let (mut read, first) = AsyncPass::start(pages.clone(), 12 * 4096, 4096, 4, false);
    let reads = run_tasks(&mut read, first, 4, 4096);
    assert!(read.is_finished());
    assert_eq!(reads.len(), 12);
    assert!(reads.iter().all(|t| t.fresh));
    let mut bufs: Vec<usize> = reads.iter().map(|t| t.buffer).collect();
    bufs.sort();
    assert_eq!(bufs, (0..12).collect::<Vec<usize>>());

    let mut w: Vec<u64> = writes.iter().map(|t| t.offset).collect();
    let mut r: Vec<u64> = reads.iter().map(|t| t.offset).collect();
    w.sort();
    r.sort();
    let expected: Vec<u64> = (0..12).map(|k| k * 4096).collect();
    assert_eq!(w, expected);
    assert_eq!(r, expected);
}

#[test]
fn tasks_short_transfer_aborts() {
    let (mut pass, first) = AsyncPass::start(vec![0, 1, 2], 3 * 512, 512, 2, true);
    assert_eq!(first[1], TaskStart { slot: 1, offset: 512, buffer: 1, fresh: true });
    assert_eq!(pass.complete(1, 511), Err(CompletionError::ShortTransfer(511)));
    assert_eq!(pass.complete(1, -22), Err(CompletionError::Failed(-22)));
    assert_eq!(pass.complete(2, 512), Err(CompletionError::UnknownSlot(2)));
    assert_eq!(pass.in_flight(), 2);
    assert_eq!(
        pass.complete(1, 512),
        Ok(Some(TaskStart { slot: 1, offset: 1024, buffer: 1, fresh: false }))
    );
    assert_eq!(pass.complete(0, 512), Ok(None));
    assert_eq!(pass.complete(1, 512), Ok(None));
    assert!(pass.is_finished());
}

#[test]
fn ring_write_then_read_round_trip() {
    let pages = access_seq(IoSequence::Random, 9);
    let (mut write, first) = RingPass::start(pages.clone(), 9 * 1024, 1024, 2);
    let writes = run_ring(&mut write, first, 2, 1024);
    assert!(write.is_finished());
    let (mut read, first) = RingPass::start(pages.clone(), 9 * 1024, 1024, 2);
    let reads = run_ring(&mut read, first, 2, 1024);
    assert!(read.is_finished());
    let w: Vec<u64> = writes.iter().map(|s| s.offset).collect();
    let r: Vec<u64> = reads.iter().map(|s| s.offset).collect();
    assert_eq!(w, r);
    assert_eq!(w, pages.iter().map(|p| p * 1024).collect::<Vec<u64>>());
}
