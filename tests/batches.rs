use bevy_playdate::batch::{BatchCommandQueue, BatchQueuePlugin, FLUSH_JOB_PRIORITY, MAX_QUEUES};
use bevy_playdate::jobs::{JobsScheduler, WorkResult};

#[test]
fn batches_apply_one_per_frame_in_fifo_order() {
    let mut queue: BatchCommandQueue<&'static str> = BatchCommandQueue::new();
    for (i, name) in ["spawn a", "spawn b", "spawn c"].iter().enumerate() {
        let mut buf = queue.commands();
        assert!(buf.is_empty());
        buf.push(name);
        buf.push(if i == 0 { "then x" } else { "then y" });
        queue.submit(buf);
    }
    let mut applied = Vec::new();
    for _frame in 0..4 {
        let (flush, result) = queue.commands_job_step();
        assert!(matches!(result, WorkResult::Skip(())));
        if let Some(batch) = flush.batch {
            applied.push(batch[0]);
            queue.recycle(batch);
        }
    }
    assert_eq!(applied, vec!["spawn a", "spawn b", "spawn c"]);
}

#[test]
fn loading_marker_follows_pending_batches() {
    let mut queue: BatchCommandQueue<u8> = BatchCommandQueue::new();
    queue.submit(vec![1]);
    queue.submit(vec![2]);
    let first = queue.apply_next();
    assert_eq!(first.batch, Some(vec![1]));
    assert!(first.loading);
    let second = queue.apply_next();
    assert_eq!(second.batch, Some(vec![2]));
    assert!(!second.loading);
    let third = queue.apply_next();
    assert_eq!(third.batch, None);
    assert!(!third.loading);
}

#[test]
fn full_queue_joins_the_newest_batch() {
    let mut queue: BatchCommandQueue<usize> = BatchCommandQueue::new();
    for i in 0..MAX_QUEUES {
        queue.submit(vec![i]);
    }
    queue.submit(vec![100]);
    assert_eq!(queue.len(), MAX_QUEUES);
    let mut all = Vec::new();
    while let Some(b) = queue.apply_next().batch {
        all.push(b);
    }
    assert_eq!(all.len(), MAX_QUEUES);
    assert_eq!(all[MAX_QUEUES - 1], vec![MAX_QUEUES - 1, 100]);
    assert_eq!(all[0], vec![0]);
}

#[test]
fn recycled_buffers_come_back_empty() {
    let mut queue: BatchCommandQueue<u8> = BatchCommandQueue::new();
    queue.recycle(vec![9, 9, 9]);
    assert!(queue.commands().is_empty());
}

#[test]
fn flush_job_is_staged_ahead_of_ordinary_jobs() {
    let mut scheduler: JobsScheduler<(), &'static str> = JobsScheduler::new();
    let (queue, handle) = BatchQueuePlugin.build::<u8, (), &'static str>(&mut scheduler, (), "flush");
    assert_eq!(queue.len(), 0);
    assert_eq!(handle.id(), 0);
    assert_eq!(FLUSH_JOB_PRIORITY, -100);
}

#[test]
fn commands_reuse_a_recycled_buffer() {
    let mut queue: BatchCommandQueue<u8> = BatchCommandQueue::new();
    let mut buf = Vec::with_capacity(64);
    buf.push(1);
    queue.recycle(buf);
    let again = queue.commands();
    assert!(again.is_empty());
    assert!(again.capacity() >= 64);
}
