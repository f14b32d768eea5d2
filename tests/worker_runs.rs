use comic_dl::{
    done_count, final_status, may_start_item, pending_items, retry_step, total_count,
    CurrentElement, DownloadResult, Img, ItemErrorKind, ItemOutcome, ItemRef, RetryStep,
    Scheduler, StartDecision, TaskRun, TaskStatus, PartialDownloadTask, DlType,
};

fn group(name: &str, n: usize) -> CurrentElement {
    let imgs = (0..n)
        .map(|i| Img { href: format!("https://img.example/{}/{}.jpg", name, i), done: false })
        .collect();
    CurrentElement { name: name.to_string(), href: format!("https://page.example/{}", name), imgs, count: n, done: false }
}

fn twelve_items() -> Vec<CurrentElement> {
    vec![group("第1话", 4), group("第2话", 4), group("第3话", 4)]
}

fn done(r: ItemRef) -> DownloadResult {
    DownloadResult { group_index: r.group_index, index: r.index, outcome: ItemOutcome::Done }
}

fn task(id: i32, status: TaskStatus) -> PartialDownloadTask {
    PartialDownloadTask {
        id,
        dl_type: DlType::Hua,
        status,
        local_path: String::new(),
        url: format!("https://www.antbyw.com/plugin.php?kuid={}", id),
        author: String::new(),
        comic_name: format!("comic{}", id),
        progress: "0.00".to_string(),
        count: 12,
        now_count: 0,
        error_vec: String::new(),
        done: false,
    }
}

#[test]
fn done_count_sums_item_flags() {
    let mut groups = twelve_items();
    groups[0].imgs[1].done = true;
    groups[2].imgs[3].done = true;
    groups[2].done = true; // a stale group flag is not counted
    assert_eq!(done_count(&groups), 2);
    assert_eq!(total_count(&groups), 12);
    assert_eq!(done_count(&Vec::new()), 0);
}

#[test]
fn pending_items_skip_done_ones() {
    let mut groups = twelve_items();
    groups[0].imgs[0].done = true;
    groups[1].imgs[2].done = true;
    let p = pending_items(&groups);
    assert_eq!(p.len(), 10);
    assert!(!p.contains(&ItemRef { group_index: 0, index: 0 }));
    assert!(!p.contains(&ItemRef { group_index: 1, index: 2 }));
    assert_eq!(p[0], ItemRef { group_index: 0, index: 1 });
    assert_eq!(p[9], ItemRef { group_index: 2, index: 3 });
}

#[test]
fn retry_step_bounds_attempts() {
    assert_eq!(retry_step(1, 5, true), RetryStep::Proceed);
    assert_eq!(retry_step(1, 5, false), RetryStep::Retry);
    assert_eq!(retry_step(4, 5, false), RetryStep::Retry);
    assert_eq!(retry_step(5, 5, false), RetryStep::GiveUp);
}

#[test]
fn final_status_rules() {
    assert_eq!(final_status(1, 12, 12), TaskStatus::Failed);
    assert_eq!(final_status(0, 12, 12), TaskStatus::Finished);
    assert_eq!(final_status(0, 3, 12), TaskStatus::Stopped);
}

#[test]
fn stop_signal_blocks_new_items() {
    assert!(!may_start_item(TaskStatus::Stopped));
    assert!(may_start_item(TaskStatus::Downloading));
}

#[test]
fn checkpoints_follow_cadence() {
    let groups = vec![group("第1话", 30)];
    let mut run = TaskRun::new(groups);
    let pending = pending_items(&run.groups);
    let mut mirror_pushes = 0;
    let mut persists = 0;
    for r in pending {
        let c = run.record(done(r)).unwrap();
        if c.sync_mirror {
            mirror_pushes += 1;
        }
        if c.persist {
            persists += 1;
        }
    }
    assert_eq!(mirror_pushes, 3);
    assert_eq!(persists, 1);
}

#[test]
fn done_flag_never_reverts() {
    let mut run = TaskRun::new(twelve_items());
    assert_eq!(run.record(done(ItemRef { group_index: 1, index: 1 })).is_some(), true);
    assert_eq!(run.progress, 1);
    // completing it again counts nothing
    assert!(run.record(done(ItemRef { group_index: 1, index: 1 })).is_none());
    // a later failure of the same item keeps it done
    run.record(DownloadResult { group_index: 1, index: 1, outcome: ItemOutcome::Failed(ItemErrorKind::Write) });
    assert!(run.groups[1].imgs[1].done);
    assert_eq!(run.progress, 1);
}

#[test]
fn run_with_two_done_finishes() {
    let mut groups = twelve_items();
    groups[0].imgs[0].done = true;
    groups[2].imgs[2].done = true;
    let mut sched = Scheduler::new(1);
    assert!(sched.add_task(task(1, TaskStatus::Stopped)));
    assert_eq!(sched.start_or_pause(1, TaskStatus::Downloading), StartDecision::Started);
    let image_limit = 3;
    let mut run = TaskRun::new(groups);
    let pending = pending_items(&run.groups);
    assert_eq!(pending.len(), 10);
    for chunk in pending.chunks(image_limit) {
        for r in chunk {
            run.record(done(*r));
        }
    }
    assert_eq!(run.finish(), TaskStatus::Finished);
    assert_eq!(run.progress, 12);
    assert!(run.errors.is_empty());
    assert_eq!(done_count(&run.groups), 12);
}

#[test]
fn one_timing_out_item_fails_task() {
    let mut run = TaskRun::new(twelve_items());
    let bad = ItemRef { group_index: 1, index: 2 };
    for r in pending_items(&run.groups) {
        if r == bad {
            let mut attempts = 0;
            loop {
                attempts += 1;
                // every attempt times out
                match retry_step(attempts, 5, false) {
                    RetryStep::Retry => continue,
                    RetryStep::GiveUp => break,
                    RetryStep::Proceed => unreachable!(),
                }
            }
            assert_eq!(attempts, 5);
            run.record(DownloadResult { group_index: r.group_index, index: r.index, outcome: ItemOutcome::Failed(ItemErrorKind::Fetch) });
        } else {
            run.record(done(r));
        }
    }
    assert_eq!(run.errors.len(), 1);
    assert_eq!(run.errors[0].group_index, 1);
    assert_eq!(run.errors[0].index, 2);
    assert_eq!(run.progress, 11);
    assert!(!run.groups[1].imgs[2].done);
    assert_eq!(run.finish(), TaskStatus::Failed);
}

#[test]
fn stop_after_three_then_resume() {
    let mut sched = Scheduler::new(1);
    sched.add_task(task(7, TaskStatus::Stopped));
    assert_eq!(sched.start_or_pause(7, TaskStatus::Downloading), StartDecision::Started);
    let mut run = TaskRun::new(twelve_items());
    let mut completed = 0;
    for r in pending_items(&run.groups) {
        let status = sched.tasks.iter().find(|t| t.id == 7).unwrap().status;
        if may_start_item(status) {
            run.record(done(r));
            completed += 1;
            if completed == 3 {
                assert_eq!(sched.start_or_pause(7, TaskStatus::Stopped), StartDecision::Paused);
            }
        } else {
            run.record(DownloadResult { group_index: r.group_index, index: r.index, outcome: ItemOutcome::Stopped });
        }
    }
    assert_eq!(run.finish(), TaskStatus::Stopped);
    assert!(run.errors.is_empty());
    assert_eq!(run.progress, 3);
    // resume from the checkpointed descriptor
    let first_three: Vec<ItemRef> = vec![
        ItemRef { group_index: 0, index: 0 },
        ItemRef { group_index: 0, index: 1 },
        ItemRef { group_index: 0, index: 2 },
    ];
    let mut again = TaskRun::new(run.groups.clone());
    assert_eq!(again.progress, 3);
    let pending = pending_items(&again.groups);
    assert_eq!(pending.len(), 9);
    for r in &first_three {
        assert!(!pending.contains(r));
    }
    for r in pending {
        again.record(done(r));
    }
    assert_eq!(again.finish(), TaskStatus::Finished);
    assert_eq!(again.progress, 12);
}

#[test]
fn only_terminal_outcomes_notify() {
    assert!(comic_dl::notifies(TaskStatus::Finished));
    assert!(comic_dl::notifies(TaskStatus::Failed));
    assert!(!comic_dl::notifies(TaskStatus::Stopped));
    assert!(!comic_dl::notifies(TaskStatus::Downloading));
}
