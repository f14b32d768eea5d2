use comic_dl::{
    status_after_restart, DlType, PartialDownloadTask, Scheduler, StartAllData, StartDecision, TaskStatus,
};

fn task(id: i32, kind: DlType, url: &str, status: TaskStatus, now_count: i32, count: i32) -> PartialDownloadTask {
    PartialDownloadTask {
        id,
        dl_type: kind,
        status,
        local_path: String::new(),
        url: url.to_string(),
        author: String::new(),
        comic_name: format!("comic{}", id),
        progress: "0.00".to_string(),
        count,
        now_count,
        error_vec: String::new(),
        done: false,
    }
}

fn simple(id: i32, status: TaskStatus) -> PartialDownloadTask {
    task(id, DlType::Juan, &format!("https://www.antbyw.com/plugin.php?kuid={}", id), status, 0, 10)
}

fn status_of(s: &Scheduler, id: i32) -> TaskStatus {
    s.tasks.iter().find(|t| t.id == id).unwrap().status
}

fn downloading(s: &Scheduler) -> usize {
    s.tasks.iter().filter(|t| t.status == TaskStatus::Downloading).count()
}

#[test]
fn admission_respects_bound() {
    let mut s = Scheduler::new(2);
    for id in 1..=4 {
        s.add_task(simple(id, TaskStatus::Stopped));
    }
    assert_eq!(s.start_or_pause(1, TaskStatus::Downloading), StartDecision::Started);
    assert_eq!(s.start_or_pause(2, TaskStatus::Downloading), StartDecision::Started);
    assert_eq!(s.start_or_pause(3, TaskStatus::Downloading), StartDecision::Queued);
    assert_eq!(s.start_or_pause(1, TaskStatus::Downloading), StartDecision::AlreadyDownloading);
    assert_eq!(s.start_or_pause(9, TaskStatus::Downloading), StartDecision::NotFound);
    assert_eq!(status_of(&s, 3), TaskStatus::Waiting);
    assert_eq!(downloading(&s), 2);
    let c = s.get_downloading_count();
    assert_eq!(c.count, 2);
    assert_eq!(c.downloading_ids, vec![1, 2]);
}

#[test]
fn pause_then_promote_lowest_waiting_id() {
    let mut s = Scheduler::new(1);
    s.add_task(simple(5, TaskStatus::Stopped));
    s.add_task(simple(3, TaskStatus::Stopped));
    s.add_task(simple(4, TaskStatus::Stopped));
    assert_eq!(s.start_or_pause(5, TaskStatus::Downloading), StartDecision::Started);
    assert_eq!(s.start_or_pause(4, TaskStatus::Downloading), StartDecision::Queued);
    assert_eq!(s.start_or_pause(3, TaskStatus::Downloading), StartDecision::Queued);
    assert!(s.finish_task(5, TaskStatus::Finished, "100.00".to_string(), 10, "[]".to_string()));
    assert_eq!(status_of(&s, 5), TaskStatus::Finished);
    let promoted = s.start_waiting();
    assert_eq!(promoted, vec![3]);
    assert_eq!(status_of(&s, 3), TaskStatus::Downloading);
    assert_eq!(status_of(&s, 4), TaskStatus::Waiting);
    assert_eq!(s.start_waiting(), Vec::<i32>::new());
    assert_eq!(s.start_or_pause(3, TaskStatus::Stopped), StartDecision::Paused);
    assert_eq!(status_of(&s, 3), TaskStatus::Stopped);
}

#[test]
fn start_all_fills_capacity_in_order() {
    let mut s = Scheduler::new(2);
    s.add_task(simple(1, TaskStatus::Downloading));
    s.add_task(simple(2, TaskStatus::Stopped));
    s.add_task(simple(3, TaskStatus::Failed));
    s.add_task(simple(4, TaskStatus::Finished));
    s.add_task(simple(5, TaskStatus::Stopped));
    let changed = s.start_all();
    assert_eq!(
        changed,
        vec![
            StartAllData { id: 2, status: TaskStatus::Downloading },
            StartAllData { id: 3, status: TaskStatus::Waiting },
            StartAllData { id: 5, status: TaskStatus::Waiting },
        ]
    );
    assert_eq!(status_of(&s, 4), TaskStatus::Finished);
    assert_eq!(downloading(&s), 2);
}

#[test]
fn pause_all_and_pause_waiting() {
    let mut s = Scheduler::new(1);
    s.add_task(simple(1, TaskStatus::Downloading));
    s.add_task(simple(2, TaskStatus::Waiting));
    s.add_task(simple(3, TaskStatus::Finished));
    let changed = s.pause_all_waiting();
    assert_eq!(changed, vec![StartAllData { id: 2, status: TaskStatus::Stopped }]);
    assert_eq!(status_of(&s, 1), TaskStatus::Downloading);
    let changed = s.pause_all();
    assert_eq!(changed, vec![StartAllData { id: 1, status: TaskStatus::Stopped }]);
    assert_eq!(downloading(&s), 0);
    assert_eq!(status_of(&s, 3), TaskStatus::Finished);
}

#[test]
fn delete_all_keeps_downloading() {
    let mut s = Scheduler::new(1);
    s.add_task(simple(1, TaskStatus::Stopped));
    s.add_task(simple(2, TaskStatus::Downloading));
    s.add_task(simple(3, TaskStatus::Failed));
    let removed = s.delete_all();
    assert_eq!(removed, vec![1, 3]);
    assert_eq!(s.tasks.len(), 1);
    assert_eq!(s.tasks[0].id, 2);
    assert!(!s.delete_task(2));
    assert!(!s.delete_task(3));
    assert_eq!(s.tasks.len(), 1);
}

#[test]
fn adding_same_kind_and_url_twice_creates_one() {
    let mut s = Scheduler::new(1);
    let url = "https://www.antbyw.com/plugin.php?id=jameson_manhua&a=bofang&kuid=1";
    assert!(s.add_task(task(1, DlType::Hua, url, TaskStatus::Stopped, 0, 5)));
    assert!(!s.add_task(task(2, DlType::Hua, url, TaskStatus::Stopped, 0, 5)));
    assert!(s.add_task(task(3, DlType::Juan, url, TaskStatus::Stopped, 0, 5)));
    assert!(!s.add_task(task(3, DlType::Fanwai, url, TaskStatus::Stopped, 0, 5)));
    assert_eq!(s.tasks.iter().filter(|t| t.dl_type == DlType::Hua && t.url == url).count(), 1);
    assert!(s.has_task(DlType::Hua, &url.to_string()));
    assert!(!s.has_task(DlType::Fanwai, &url.to_string()));
}

#[test]
fn added_downloading_task_waits_beyond_bound() {
    let mut s = Scheduler::new(1);
    s.add_task(simple(1, TaskStatus::Downloading));
    s.add_task(simple(2, TaskStatus::Downloading));
    assert_eq!(status_of(&s, 2), TaskStatus::Waiting);
    assert_eq!(downloading(&s), 1);
}

#[test]
fn sort_by_status_then_progress() {
    let mut s = Scheduler::new(1);
    s.add_task(task(1, DlType::Juan, "a", TaskStatus::Finished, 5, 5));
    s.add_task(task(2, DlType::Juan, "b", TaskStatus::Stopped, 1, 9));
    s.add_task(task(3, DlType::Juan, "c", TaskStatus::Stopped, 4, 9));
    s.add_task(task(4, DlType::Juan, "d", TaskStatus::Downloading, 0, 3));
    s.add_task(task(5, DlType::Juan, "e", TaskStatus::Stopped, 4, 2));
    s.add_task(task(6, DlType::Juan, "f", TaskStatus::Waiting, 0, 1));
    s.sort_tasks();
    let order: Vec<i32> = s.tasks.iter().map(|t| t.id).collect();
    assert_eq!(order, vec![4, 6, 5, 3, 2, 1]);
}

#[test]
fn progress_updates_reach_the_mirror() {
    let mut s = Scheduler::new(1);
    s.add_task(simple(1, TaskStatus::Downloading));
    assert!(s.update_progress(1, "50.00".to_string(), 5));
    assert_eq!(s.tasks[0].progress, "50.00");
    assert_eq!(s.tasks[0].now_count, 5);
    assert!(!s.update_progress(8, "1.00".to_string(), 1));
}

#[test]
fn restart_stops_unfinished_transfers() {
    assert_eq!(status_after_restart(TaskStatus::Downloading), TaskStatus::Stopped);
    assert_eq!(status_after_restart(TaskStatus::Waiting), TaskStatus::Stopped);
    assert_eq!(status_after_restart(TaskStatus::Failed), TaskStatus::Failed);
    assert_eq!(status_after_restart(TaskStatus::Finished), TaskStatus::Finished);
}

#[test]
fn downloading_task_is_not_deleted() {
    let mut s = Scheduler::new(1);
    s.add_task(simple(1, TaskStatus::Downloading));
    s.add_task(simple(2, TaskStatus::Stopped));
    assert!(!s.deletable(1));
    assert!(!s.delete_task(1));
    assert_eq!(s.tasks.len(), 2);
    assert!(s.deletable(2));
    assert!(s.delete_task(2));
    assert!(!s.deletable(2));
    assert_eq!(s.tasks.len(), 1);
}
