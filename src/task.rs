//! Task records: their kind, their lifecycle status and the projection kept in
//! the in-memory mirror.
use vstd::prelude::*;

verus! {

/// The kind of listing a task downloads.
#[derive(PartialEq, Eq, Structural, Clone, Copy, Debug)]
pub enum DlType {
    Juan,
    Hua,
    Fanwai,
    Current,
    JuanHuaFanwai,
    Author,
    Local,
    Upscale,
}

/// Lifecycle status of a task.
#[derive(PartialEq, Eq, Structural, Clone, Copy, Debug)]
pub enum TaskStatus {
    Downloading,
    Waiting,
    Stopped,
    Failed,
    Finished,
}

impl TaskStatus {
    /// Display precedence: downloading, waiting, stopped, failed, finished.
    pub open spec fn spec_rank(self) -> nat {
        match self {
            TaskStatus::Downloading => 0,
            TaskStatus::Waiting => 1,
            TaskStatus::Stopped => 2,
            TaskStatus::Failed => 3,
            TaskStatus::Finished => 4,
        }
    }

    /// Display precedence of this status.
    pub fn rank(&self) -> (r: u8)
        ensures
            r == self.spec_rank(),
    {
        match self {
            TaskStatus::Downloading => 0,
            TaskStatus::Waiting => 1,
            TaskStatus::Stopped => 2,
            TaskStatus::Failed => 3,
            TaskStatus::Finished => 4,
        }
    }

    pub open spec fn is_terminal(self) -> bool {
        self == TaskStatus::Finished || self == TaskStatus::Failed || self == TaskStatus::Stopped
    }
}

/// A task as the mirror holds it: every field of the record but the
/// serialized descriptor.
#[derive(Clone, Debug)]
pub struct PartialDownloadTask {
    pub id: i32,
    pub dl_type: DlType,
    pub status: TaskStatus,
    pub local_path: String,
    pub url: String,
    pub author: String,
    pub comic_name: String,
    pub progress: String,
    pub count: i32,
    pub now_count: i32,
    pub error_vec: String,
    pub done: bool,
}

/// A full task record, with its serialized descriptor.
#[derive(Clone, Debug)]
pub struct DownloadTask {
    pub id: i32,
    pub dl_type: DlType,
    pub status: TaskStatus,
    pub local_path: String,
    pub cache_json: String,
    pub url: String,
    pub author: String,
    pub comic_name: String,
    pub progress: String,
    pub count: i32,
    pub now_count: i32,
    pub error_vec: String,
    pub done: bool,
}

impl DownloadTask {
    /// The record without its descriptor, as the mirror keeps it.
    pub fn partial(&self) -> (r: PartialDownloadTask)
        ensures
            r.id == self.id,
            r.dl_type == self.dl_type,
            r.status == self.status,
            r.local_path == self.local_path,
            r.url == self.url,
            r.author == self.author,
            r.comic_name == self.comic_name,
            r.progress == self.progress,
            r.count == self.count,
            r.now_count == self.now_count,
            r.error_vec == self.error_vec,
            r.done == self.done,
    {
        PartialDownloadTask {
            id: self.id,
            dl_type: self.dl_type,
            status: self.status,
            local_path: self.local_path.clone(),
            url: self.url.clone(),
            author: self.author.clone(),
            comic_name: self.comic_name.clone(),
            progress: self.progress.clone(),
            count: self.count,
            now_count: self.now_count,
            error_vec: self.error_vec.clone(),
            done: self.done,
        }
    }
}

/// The tag that names a status in the store and on the progress channel.
pub open spec fn status_tag_spec(st: TaskStatus) -> Seq<char> {
    match st {
        TaskStatus::Downloading => "downloading"@,
        TaskStatus::Waiting => "waiting"@,
        TaskStatus::Stopped => "stopped"@,
        TaskStatus::Failed => "failed"@,
        TaskStatus::Finished => "finished"@,
    }
}

/// The status a tag names.
pub open spec fn status_of_tag(tag: Seq<char>) -> Option<TaskStatus> {
    if tag == "downloading"@ {
        Some(TaskStatus::Downloading)
    } else if tag == "waiting"@ {
        Some(TaskStatus::Waiting)
    } else if tag == "stopped"@ {
        Some(TaskStatus::Stopped)
    } else if tag == "failed"@ {
        Some(TaskStatus::Failed)
    } else if tag == "finished"@ {
        Some(TaskStatus::Finished)
    } else {
        None
    }
}

impl TaskStatus {
    /// The tag of this status.
    pub fn tag(&self) -> (r: &'static str)
        ensures
            r@ == status_tag_spec(*self),
    {
        match self {
            TaskStatus::Downloading => "downloading",
            TaskStatus::Waiting => "waiting",
            TaskStatus::Stopped => "stopped",
            TaskStatus::Failed => "failed",
            TaskStatus::Finished => "finished",
        }
    }

    /// The status a tag names, if any.
    pub fn from_tag(tag: &str) -> (r: Option<TaskStatus>)
        ensures
            r == status_of_tag(tag@),
    {
        if crate::text::str_eq(tag, "downloading") {
            Some(TaskStatus::Downloading)
        } else if crate::text::str_eq(tag, "waiting") {
            Some(TaskStatus::Waiting)
        } else if crate::text::str_eq(tag, "stopped") {
            Some(TaskStatus::Stopped)
        } else if crate::text::str_eq(tag, "failed") {
            Some(TaskStatus::Failed)
        } else if crate::text::str_eq(tag, "finished") {
            Some(TaskStatus::Finished)
        } else {
            None
        }
    }
}

} // verus!
