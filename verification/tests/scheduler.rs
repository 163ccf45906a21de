use ic_task_scheduler::SchedulerError;
use ic_task_scheduler::scheduler::{Scheduler, TaskScheduler};
use ic_task_scheduler::storage::StableBTreeMap;
use ic_task_scheduler::task::{ScheduledTask, TaskOptions};

#[derive(Clone, Copy, Debug, PartialEq)]
enum TestTask {
    StepOne { id: u32 },
    StepTwo { id: u32 },
    StepThree { id: u32 },
}

/// Executes one dispatched payload, as the host's executor would: records a
/// message and appends any follow-up tasks through the scheduler handle.
fn execute(
    task: &TestTask,
    scheduler: &mut Scheduler<TestTask>,
    log: &mut Vec<String>,
) -> Result<(), SchedulerError> {
    match *task {
        TestTask::StepOne { id } => {
            log.push(format!("{} - StepOne", id));
            // Append the next task to be executed.
            scheduler.append_task(ScheduledTask::new(TestTask::StepTwo { id }));
            Ok(())
        }
        TestTask::StepTwo { id } => {
            log.push(format!("{} - StepTwo", id));
            // More tasks can be appended in one execution.
            scheduler.append_task(ScheduledTask::new(TestTask::StepThree { id }));
            scheduler.append_task(ScheduledTask::new(TestTask::StepThree { id }));
            Ok(())
        }
        TestTask::StepThree { id } => {
            log.push(format!("{} - Done", id));
            Ok(())
        }
    }
}

/// One scheduler pass plus the resolution of every continuation it
/// dispatched; returns how many tasks the pass dispatched.
fn drive(scheduler: &mut Scheduler<TestTask>, now: u64, log: &mut Vec<String>) -> usize {
    let dispatched = scheduler.run(now).unwrap();
    let count = dispatched.len();
    for task in dispatched {
        let result = execute(&task.task, scheduler, log);
        if let Some(retry) = task.after_execution(result, now) {
            scheduler.append_task(retry);
        }
    }
    count
}

#[test]
fn test_run_scheduler() {
    let map = StableBTreeMap::new();
    let mut scheduler = Scheduler::new(map);
    let id = 7u32;
    let mut log = Vec::new();
    scheduler.append_task(ScheduledTask::new(TestTask::StepOne { id }));

    // A task appended during a pass is visible only to a later pass, so the
    // host keeps ticking until the chain has played out.
    while drive(&mut scheduler, 0, &mut log) > 0 {}

    assert_eq!(
        log,
        vec![
            format!("{} - StepOne", id),
            format!("{} - StepTwo", id),
            format!("{} - Done", id),
            format!("{} - Done", id),
        ]
    );
}

#[test]
fn test_task_option_execute_after_timestamp() {
    let map = StableBTreeMap::new();
    let mut scheduler = Scheduler::new(map);
    let id = 3u32;
    scheduler.append_task(ScheduledTask::with_options(
        TestTask::StepThree { id },
        TaskOptions::new().with_execute_after_timestamp_in_secs(102),
    ));

    // Not yet due: not dispatched, but retrievable afterwards, unchanged.
    let dispatched = scheduler.run(100).unwrap();
    assert!(dispatched.is_empty());
    let store = scheduler.pending_store();
    assert_eq!(store.len(), 1);
    let record = store.get(&0).unwrap();
    assert_eq!(record.task, TestTask::StepThree { id });
    assert_eq!(record.options.execute_after_timestamp_in_secs, 102);
    assert_eq!(record.options.max_retries, 0);

    // Still not due one second before its time.
    assert!(scheduler.run(101).unwrap().is_empty());

    // Dispatched once its time arrives.
    let dispatched = scheduler.run(102).unwrap();
    assert_eq!(dispatched.len(), 1);
    assert_eq!(dispatched[0].task, TestTask::StepThree { id });
    assert!(scheduler.pending_store().is_empty());
}

#[test]
fn test_task_failure_and_retry() {
    let map = StableBTreeMap::new();
    let mut scheduler = Scheduler::new(map);
    let id = 11u32;
    scheduler.append_task(ScheduledTask::with_options(
        TestTask::StepThree { id },
        TaskOptions::new().with_max_retries(3),
    ));

    // The payload fails on every dispatch.
    let mut dispatch_count = 0;
    for _pass in 0..10 {
        let dispatched = scheduler.run(1000).unwrap();
        for task in dispatched {
            dispatch_count += 1;
            if let Some(retry) = task.after_execution(Err(SchedulerError::StorageUnavailable), 1000)
            {
                scheduler.append_task(retry);
            }
        }
    }

    // max_retries = 3: dispatched exactly 4 times, then never again.
    assert_eq!(dispatch_count, 4);
    assert!(scheduler.pending_store().is_empty());
}

#[test]
fn test_task_retry_delay() {
    let map = StableBTreeMap::new();
    let mut scheduler = Scheduler::new(map);
    let id = 13u32;
    scheduler.append_task(ScheduledTask::with_options(
        TestTask::StepThree { id },
        TaskOptions::new().with_max_retries(5).with_retry_delay_secs(2),
    ));

    let dispatched = scheduler.run(100).unwrap();
    assert_eq!(dispatched.len(), 1);
    let retry = dispatched[0]
        .after_execution(Err(SchedulerError::StorageUnavailable), 100)
        .unwrap();

    // The re-enqueued record is due exactly at failure time + delay.
    assert_eq!(retry.options.execute_after_timestamp_in_secs, 102);
    assert_eq!(retry.options.max_retries, 4);
    assert_eq!(retry.options.retry_delay_secs, 2);
    scheduler.append_task(retry);

    assert!(scheduler.run(101).unwrap().is_empty());
    let dispatched = scheduler.run(102).unwrap();
    assert_eq!(dispatched.len(), 1);
}

#[test]
fn test_monotonic_key_assignment() {
    let map = StableBTreeMap::new();
    let mut scheduler = Scheduler::new(map);
    let task = ScheduledTask::new(TestTask::StepThree { id: 1 });

    scheduler.append_task(task);
    assert_eq!(scheduler.pending_store().first_key(), Some(0));
    assert_eq!(scheduler.pending_store().last_key(), Some(0));

    scheduler.append_task(task);
    assert_eq!(scheduler.pending_store().last_key(), Some(1));

    scheduler.append_tasks(vec![task, task, task]);
    assert_eq!(scheduler.pending_store().last_key(), Some(4));
    assert_eq!(scheduler.pending_store().len(), 5);
    for key in 0..5u32 {
        assert!(scheduler.pending_store().get(&key).is_some());
    }
}

#[test]
fn test_append_tasks_empty_batch_is_noop() {
    let map = StableBTreeMap::new();
    let mut scheduler = Scheduler::new(map);
    scheduler.append_task(ScheduledTask::new(TestTask::StepThree { id: 1 }));

    // An empty batch consumes no keys: the next key is still 1.
    scheduler.append_tasks(vec![]);
    assert_eq!(scheduler.pending_store().len(), 1);
    assert_eq!(scheduler.pending_store().last_key(), Some(0));
    scheduler.append_task(ScheduledTask::new(TestTask::StepThree { id: 2 }));
    assert_eq!(scheduler.pending_store().last_key(), Some(1));
}

#[test]
fn test_fifo_among_due() {
    let map = StableBTreeMap::new();
    let mut scheduler = Scheduler::new(map);
    for id in 1..=3u32 {
        scheduler.append_task(ScheduledTask::new(TestTask::StepThree { id }));
    }

    let dispatched = scheduler.run(0).unwrap();
    let ids: Vec<TestTask> = dispatched.iter().map(|t| t.task).collect();
    assert_eq!(
        ids,
        vec![
            TestTask::StepThree { id: 1 },
            TestTask::StepThree { id: 2 },
            TestTask::StepThree { id: 3 },
        ]
    );
}

#[test]
fn test_chaining_round_trip() {
    let map = StableBTreeMap::new();
    let mut scheduler = Scheduler::new(map);
    let id = 7u32;
    let mut log = Vec::new();

    // The follow-up is absent from the store before the first dispatch.
    scheduler.append_task(ScheduledTask::new(TestTask::StepOne { id }));
    assert_eq!(scheduler.pending_store().len(), 1);

    // The first pass dispatches the first task; on success it appends its
    // follow-up, present immediately after.
    let dispatched = scheduler.run(0).unwrap();
    assert_eq!(dispatched.len(), 1);
    assert!(scheduler.pending_store().is_empty());
    for task in dispatched {
        execute(&task.task, &mut scheduler, &mut log).unwrap();
    }
    assert_eq!(scheduler.pending_store().len(), 1);

    // The next pass dispatches the follow-up.
    let dispatched = scheduler.run(0).unwrap();
    assert_eq!(dispatched.len(), 1);
    for task in dispatched {
        execute(&task.task, &mut scheduler, &mut log).unwrap();
    }
    assert_eq!(
        log,
        vec![format!("{} - StepOne", id), format!("{} - StepTwo", id)]
    );
}

#[test]
fn test_concurrent_chaining() {
    let map = StableBTreeMap::new();
    let mut scheduler = Scheduler::new(map);
    let id = 9u32;
    let mut log = Vec::new();

    // A payload that appends two follow-up tasks on success.
    scheduler.append_task(ScheduledTask::new(TestTask::StepTwo { id }));
    let dispatched = scheduler.run(0).unwrap();
    assert_eq!(dispatched.len(), 1);
    for task in dispatched {
        execute(&task.task, &mut scheduler, &mut log).unwrap();
    }
    assert_eq!(scheduler.pending_store().len(), 2);

    // One subsequent pass dispatches both follow-ups.
    let dispatched = scheduler.run(0).unwrap();
    assert_eq!(dispatched.len(), 2);
    for task in dispatched {
        execute(&task.task, &mut scheduler, &mut log).unwrap();
    }
    assert_eq!(
        log,
        vec![
            format!("{} - StepTwo", id),
            format!("{} - Done", id),
            format!("{} - Done", id),
        ]
    );
}

#[test]
fn test_empty_store_idempotence() {
    let map: StableBTreeMap<ScheduledTask<TestTask>> = StableBTreeMap::new();
    let mut scheduler = Scheduler::new(map);
    for _ in 0..5 {
        let dispatched = scheduler.run(42).unwrap();
        assert!(dispatched.is_empty());
        assert!(scheduler.pending_store().is_empty());
    }
}
