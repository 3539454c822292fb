use bevy_playdate::jobs::{
    FinishedJobs, JobFinished, JobHandle, JobPlugin, JobTicket, Jobs, JobsScheduler, RunningJob,
    StepOutcome, WorkResult, DEFAULT_MIN_JOBS, FRAME_BUDGET_MICROS,
};

type Counter = u32;

struct Frame {
    torn_down: Vec<RunningJob<Counter, isize>>,
    finished: Vec<JobFinished>,
    stepped: Vec<(usize, isize)>,
}

/// Runs one frame; the clock advances by `step_cost` for every step taken.
fn run_frame<S, E>(
    jobs: &mut Jobs<Counter, isize>,
    scheduler: &mut JobsScheduler<Counter, isize>,
    results: &mut FinishedJobs<S, E>,
    start_time: u64,
    step_cost: u64,
    mut step: impl FnMut(&JobTicket<isize>, Counter) -> WorkResult<Counter, S, E>,
) -> Frame {
    assert!(jobs.admitted_below() <= scheduler.first_pending());
    let torn_down = jobs.begin_frame(scheduler);
    let mut finished = Vec::new();
    let mut stepped = Vec::new();
    let mut now = start_time;
    while let Some((ticket, work)) = jobs.next_step(now) {
        stepped.push((ticket.id, ticket.priority));
        let result = step(&ticket, work);
        if let StepOutcome::Finished(event, _) = jobs.finish_step(ticket, result, results) {
            finished.push(event);
        }
        now += step_cost;
    }
    jobs.end_frame();
    Frame { torn_down, finished, stepped }
}

fn count_to_ten(_: &JobTicket<isize>, n: Counter) -> WorkResult<Counter, Counter, ()> {
    if n + 1 >= 10 {
        WorkResult::Success(n + 1)
    } else {
        WorkResult::Continue(n + 1)
    }
}

fn setup() -> (JobsScheduler<Counter, isize>, Jobs<Counter, isize>, FinishedJobs<Counter, ()>) {
    JobPlugin.build()
}

#[test]
fn ids_increase_and_are_never_reused() {
    let (mut scheduler, _, _) = setup();
    let a = scheduler.add(0, 0, 0);
    let b = scheduler.add(0, 0, 0);
    let c = scheduler.add(-5, 0, -5);
    assert_eq!((a.id(), b.id(), c.id()), (0, 1, 2));
    assert_eq!(scheduler.first_pending(), 0);
}

#[test]
fn default_minimum_is_five() {
    let (_, jobs, _) = setup();
    assert_eq!(jobs.min_jobs(), 5);
    assert_eq!(DEFAULT_MIN_JOBS, 5);
    assert_eq!(FRAME_BUDGET_MICROS, 11_000);
}

#[test]
fn lower_priority_number_makes_most_progress() {
    let (mut scheduler, mut jobs, mut results) = setup();
    let handles: Vec<(isize, JobHandle)> = [100isize, -10, 0, 1]
        .iter()
        .map(|&p| (p, scheduler.add(p, 0, p)))
        .collect();
    let mut progress = std::collections::HashMap::new();
    let frame = run_frame(&mut jobs, &mut scheduler, &mut results, 0, 1_000, |t, n| {
        *progress.entry(t.job).or_insert(0u32) += 1;
        count_to_ten(t, n)
    });
    let steps = |p: isize| *progress.get(&p).unwrap_or(&0);
    assert_eq!(steps(-10), 10);
    assert_eq!(steps(0), 1);
    assert_eq!(steps(1), 0);
    assert_eq!(steps(100), 0);
    assert!(steps(-10) > steps(0) && steps(0) >= steps(1) && steps(1) >= steps(100));
    let fastest = handles.iter().find(|(p, _)| *p == -10).unwrap().1;
    assert_eq!(frame.finished, vec![JobFinished { job_id: fastest.id() }]);
    assert_eq!(results.try_claim(&fastest), Some(Ok(10)));
}

#[test]
fn steps_follow_priority_order_within_a_frame() {
    let (mut scheduler, mut jobs, mut results) = setup();
    for p in [7isize, -3, 12, 0, -8] {
        let _ = scheduler.add(p, 0, p);
    }
    let frame = run_frame(&mut jobs, &mut scheduler, &mut results, 0, 0, count_to_ten);
    assert_eq!(frame.stepped.len(), 50);
    for pair in frame.stepped.windows(2) {
        assert!(pair[0].1 <= pair[1].1);
    }
    assert_eq!(frame.finished.len(), 5);
}

#[test]
fn minimum_steps_run_even_over_budget() {
    let (mut scheduler, mut jobs, mut results) = setup();
    for p in [1isize, 2, 3] {
        let _ = scheduler.add(p, 0, p);
    }
    let frame = run_frame(&mut jobs, &mut scheduler, &mut results, 50_000, 0, |_, n| {
        WorkResult::<Counter, Counter, ()>::Continue(n + 1)
    });
    assert_eq!(frame.stepped.len(), 5);
    assert_eq!(jobs.len(), 3);
}

#[test]
fn minimum_is_capped_by_runnable_jobs() {
    let (mut scheduler, mut jobs, mut results) = setup();
    let _ = scheduler.add(1, 0, 1);
    let _ = scheduler.add(2, 0, 2);
    let frame = run_frame(&mut jobs, &mut scheduler, &mut results, 50_000, 0, |_, n| {
        WorkResult::<Counter, Counter, ()>::Skip(n)
    });
    assert_eq!(frame.stepped.len(), 2);
    assert_eq!(jobs.len(), 2);
}

#[test]
fn skipped_job_waits_for_next_frame() {
    let (mut scheduler, mut jobs, mut results) = setup();
    let _ = scheduler.add(0, 0, 0);
    let _ = scheduler.add(5, 0, 5);
    let step = |t: &JobTicket<isize>, n: Counter| {
        if t.job == 0 {
            WorkResult::<Counter, Counter, ()>::Skip(n + 1)
        } else if n + 1 >= 20 {
            WorkResult::Success(n + 1)
        } else {
            WorkResult::Continue(n + 1)
        }
    };
    let first = run_frame(&mut jobs, &mut scheduler, &mut results, 0, 0, step);
    let skipping = first.stepped.iter().filter(|s| s.1 == 0).count();
    assert_eq!(skipping, 1);
    assert_eq!(first.stepped.len(), 21);
    let second = run_frame(&mut jobs, &mut scheduler, &mut results, 0, 0, step);
    assert_eq!(second.stepped, vec![(0, 0)]);
}

#[test]
fn completion_fires_once_and_claims_once() {
    let (mut scheduler, mut jobs, mut results) = setup();
    let h = scheduler.add(0, 7, 0);
    let frame = run_frame(&mut jobs, &mut scheduler, &mut results, 0, 0, count_to_ten);
    assert_eq!(frame.finished, vec![JobFinished { job_id: h.id() }]);
    let again = run_frame(&mut jobs, &mut scheduler, &mut results, 0, 0, count_to_ten);
    assert!(again.finished.is_empty());
    assert!(again.stepped.is_empty());
    assert!(results.contains(h.id()));
    assert_eq!(results.try_claim(&h), Some(Ok(10)));
    assert_eq!(results.try_claim(&h), None);
    assert!(!results.contains(h.id()));
}

#[test]
fn error_results_are_claimed_as_errors() {
    let (mut scheduler, mut jobs, mut results) = JobPlugin.build::<Counter, isize, (), String>();
    let h = scheduler.add(0, 0, 0);
    let _ = run_frame(&mut jobs, &mut scheduler, &mut results, 0, 0, |_, _| {
        WorkResult::Error("file missing".to_string())
    });
    assert_eq!(results.try_claim(&h), Some(Err("file missing".to_string())));
}

#[test]
fn cancel_twice_or_after_completion_is_noop() {
    let (mut scheduler, mut jobs, mut results) = setup();
    let done = scheduler.add(-1, 9, -1);
    let victim = scheduler.add(0, 0, 0);
    let other = scheduler.add(1, 0, 1);
    let step = |_: &JobTicket<isize>, n: Counter| WorkResult::<Counter, Counter, ()>::Continue(n);
    let frame = run_frame(&mut jobs, &mut scheduler, &mut results, 50_000, 0, |t, n| {
        if t.job == -1 {
            count_to_ten(t, n)
        } else {
            step(t, n)
        }
    });
    assert_eq!(frame.finished, vec![JobFinished { job_id: done.id() }]);
    jobs.cancel(&mut scheduler, &victim);
    jobs.cancel(&mut scheduler, &victim);
    jobs.cancel(&mut scheduler, &done);
    assert_eq!(jobs.len(), 1);
    let next = run_frame(&mut jobs, &mut scheduler, &mut results, 50_000, 0, step);
    assert_eq!(next.torn_down.len(), 1);
    assert_eq!(next.torn_down[0].id, victim.id());
    assert!(next.stepped.iter().all(|s| s.0 == other.id()));
    assert_eq!(next.stepped.len(), 5);
    assert_eq!(results.try_claim(&done), Some(Ok(10)));
}

#[test]
fn clear_all_cancels_every_job() {
    let (mut scheduler, mut jobs, mut results) = setup();
    let _ = scheduler.add(0, 0, 0);
    let _ = scheduler.add(1, 0, 1);
    let _ = run_frame(&mut jobs, &mut scheduler, &mut results, 50_000, 0, |_, n| {
        WorkResult::<Counter, Counter, ()>::Continue(n)
    });
    jobs.clear_all();
    assert_eq!(jobs.len(), 0);
    let next = run_frame(&mut jobs, &mut scheduler, &mut results, 0, 0, count_to_ten);
    assert_eq!(next.torn_down.len(), 2);
    assert!(next.stepped.is_empty());
}

#[test]
fn jobs_added_mid_frame_wait_for_admission() {
    let (mut scheduler, mut jobs, mut results) = setup();
    let _ = run_frame(&mut jobs, &mut scheduler, &mut results, 0, 0, count_to_ten);
    let late = scheduler.add(-50, 0, -50);
    assert_eq!(jobs.len(), 0);
    let frame = run_frame(&mut jobs, &mut scheduler, &mut results, 0, 0, count_to_ten);
    assert_eq!(frame.finished, vec![JobFinished { job_id: late.id() }]);
    assert_eq!(jobs.admitted_below(), 1);
}

#[test]
fn opportunistic_steps_stop_at_budget() {
    let (mut scheduler, mut jobs, mut results) = setup();
    let _ = scheduler.add(0, 0, 0);
    let frame = run_frame(&mut jobs, &mut scheduler, &mut results, 0, 2_000, |_, n| {
        WorkResult::<Counter, Counter, ()>::Continue(n + 1)
    });
    // steps start at 0, 2000, ..., 10000: six of them fit under the budget
    assert_eq!(frame.stepped.len(), 6);
}

#[test]
fn min_jobs_can_be_changed() {
    let (mut scheduler, mut jobs, mut results) = setup();
    jobs.set_min_jobs(2);
    let _ = scheduler.add(0, 0, 0);
    let frame = run_frame(&mut jobs, &mut scheduler, &mut results, 50_000, 0, |_, n| {
        WorkResult::<Counter, Counter, ()>::Continue(n + 1)
    });
    assert_eq!(frame.stepped.len(), 2);
}

#[test]
fn cancelling_during_a_step_stops_later_steps() {
    let (mut scheduler, mut jobs, mut results) = setup();
    let h = scheduler.add(0, 0, 0);
    let torn = jobs.begin_frame(&mut scheduler);
    assert!(torn.is_empty());
    let (ticket, work) = jobs.next_step(0).unwrap();
    assert_eq!(jobs.in_flight_job(), Some(h.id()));
    jobs.cancel(&mut scheduler, &h);
    let outcome = jobs.finish_step(ticket, WorkResult::Continue(work + 1), &mut results);
    assert!(matches!(outcome, StepOutcome::Cancelled));
    assert_eq!(jobs.len(), 0);
    assert!(jobs.next_step(0).is_none());
    jobs.end_frame();
    let next = run_frame(&mut jobs, &mut scheduler, &mut results, 0, 0, count_to_ten);
    assert_eq!(next.torn_down.len(), 1);
    assert_eq!(next.torn_down[0].id, h.id());
    assert_eq!(next.torn_down[0].work, 1);
    assert!(next.stepped.is_empty());
}

#[test]
fn cancelling_a_staged_job_keeps_it_from_ever_running() {
    let (mut scheduler, mut jobs, mut results) = setup();
    let staged = scheduler.add(-1, 0, -1);
    let kept = scheduler.add(1, 0, 1);
    jobs.cancel(&mut scheduler, &staged);
    jobs.cancel(&mut scheduler, &staged);
    let frame = run_frame(&mut jobs, &mut scheduler, &mut results, 0, 0, count_to_ten);
    assert_eq!(frame.torn_down.len(), 1);
    assert_eq!(frame.torn_down[0].id, staged.id());
    assert!(frame.stepped.iter().all(|s| s.0 == kept.id()));
    assert_eq!(frame.finished, vec![JobFinished { job_id: kept.id() }]);
    assert_eq!(results.try_claim(&staged), None);
}

#[test]
fn ample_budget_completes_in_priority_order() {
    let (mut scheduler, mut jobs, mut results) = setup();
    let handles: Vec<(isize, JobHandle)> = [100isize, -10, 0, 1]
        .iter()
        .map(|&p| (p, scheduler.add(p, 0, p)))
        .collect();
    let mut progress = std::collections::HashMap::new();
    let frame = run_frame(&mut jobs, &mut scheduler, &mut results, 0, 0, |t, n| {
        *progress.entry(t.job).or_insert(0u32) += 1;
        count_to_ten(t, n)
    });
    for p in [100isize, -10, 0, 1] {
        assert_eq!(progress[&p], 10);
    }
    let id_of = |p: isize| handles.iter().find(|(q, _)| *q == p).unwrap().1.id();
    let order: Vec<usize> = frame.finished.iter().map(|e| e.job_id).collect();
    assert_eq!(order, vec![id_of(-10), id_of(0), id_of(1), id_of(100)]);
}
