//! The in-memory mirror of all tasks, and the admission rule that bounds how
//! many of them download at once.
use vstd::prelude::*;
use crate::task::{DlType, PartialDownloadTask, TaskStatus};

verus! {

/// Number of tasks of `s` with status `st`.
pub open spec fn count_status(s: Seq<PartialDownloadTask>, st: TaskStatus) -> nat
    decreases s.len(),
{
    if s.len() == 0 {
        0
    } else {
        count_status(s.drop_last(), st) + if s.last().status == st {
            1nat
        } else {
            0nat
        }
    }
}

/// Number of tasks of `s` that are stopped or failed, which a bulk start resumes.
pub open spec fn count_resumable(s: Seq<PartialDownloadTask>) -> nat
    decreases s.len(),
{
    if s.len() == 0 {
        0
    } else {
        count_resumable(s.drop_last()) + if is_resumable(s.last().status) {
            1nat
        } else {
            0nat
        }
    }
}

pub open spec fn is_resumable(st: TaskStatus) -> bool {
    st == TaskStatus::Stopped || st == TaskStatus::Failed
}

/// Two tasks differ in id and in (kind, source).
pub open spec fn distinct_tasks(a: PartialDownloadTask, b: PartialDownloadTask) -> bool {
    a.id != b.id && !(a.dl_type == b.dl_type && a.url@ == b.url@)
}

/// No two tasks share an id, nor a (kind, source) pair.
pub open spec fn ids_unique(s: Seq<PartialDownloadTask>) -> bool {
    forall|i: int, j: int| 0 <= i < s.len() && 0 <= j < s.len() && i != j ==> distinct_tasks(#[trigger] s[i], #[trigger] s[j])
}

pub open spec fn has_id(s: Seq<PartialDownloadTask>, id: i32) -> bool {
    exists|i: int| 0 <= i < s.len() && #[trigger] s[i].id == id
}

/// Some task of `s` has kind `kind` and source `url`.
pub open spec fn has_kind_url(s: Seq<PartialDownloadTask>, kind: DlType, url: Seq<char>) -> bool {
    exists|i: int| 0 <= i < s.len() && #[trigger] s[i].dl_type == kind && s[i].url@ == url
}

/// Number of tasks of `s` with kind `kind` and source `url`.
pub open spec fn count_kind_url(s: Seq<PartialDownloadTask>, kind: DlType, url: Seq<char>) -> nat
    decreases s.len(),
{
    if s.len() == 0 {
        0
    } else {
        count_kind_url(s.drop_last(), kind, url) + if s.last().dl_type == kind && s.last().url@ == url {
            1nat
        } else {
            0nat
        }
    }
}

/// `id` is the id of a task of `s` that is not downloading.
pub open spec fn idle_id(s: Seq<PartialDownloadTask>, id: i32) -> bool {
    exists|i: int| 0 <= i < s.len() && s[i].status != TaskStatus::Downloading && #[trigger] s[i].id == id
}


/// `id` is the id of a task that waited in `a` and downloads in `b`.
pub open spec fn promoted_id(a: Seq<PartialDownloadTask>, b: Seq<PartialDownloadTask>, id: i32) -> bool {
    exists|i: int| 0 <= i < a.len() && i < b.len() && a[i].status == TaskStatus::Waiting
        && b[i].status == TaskStatus::Downloading && #[trigger] a[i].id == id
}

/// `b` is `a` with some waiting tasks admitted and nothing else changed.
pub open spec fn only_admitted(a: Seq<PartialDownloadTask>, b: Seq<PartialDownloadTask>) -> bool {
    &&& a.len() == b.len()
    &&& forall|i: int| 0 <= i < a.len() ==> #[trigger] b[i] == a[i]
        || (a[i].status == TaskStatus::Waiting && b[i] == with_status(a[i], TaskStatus::Downloading))
}


/// Display order: status precedence first, then more items done first, then
/// fewer items in all first.
pub open spec fn display_le(a: PartialDownloadTask, b: PartialDownloadTask) -> bool {
    a.status.spec_rank() < b.status.spec_rank() || (a.status.spec_rank() == b.status.spec_rank() && (
        a.now_count > b.now_count || (a.now_count == b.now_count && a.count <= b.count)))
}

pub open spec fn display_sorted(s: Seq<PartialDownloadTask>) -> bool {
    forall|i: int, j: int| 0 <= i < j < s.len() ==> display_le(#[trigger] s[i], #[trigger] s[j])
}

/// Ids of the tasks of `s` that are not downloading, in mirror order.
pub open spec fn idle_ids(s: Seq<PartialDownloadTask>) -> Seq<i32>
    decreases s.len(),
{
    if s.len() == 0 {
        Seq::empty()
    } else if s.last().status != TaskStatus::Downloading {
        idle_ids(s.drop_last()).push(s.last().id)
    } else {
        idle_ids(s.drop_last())
    }
}

pub proof fn lemma_idle_ids_len(s: Seq<PartialDownloadTask>)
    ensures
        idle_ids(s).len() + keep_downloading(s).len() == s.len(),
    decreases s.len(),
{
    if s.len() > 0 {
        lemma_idle_ids_len(s.drop_last());
    }
}

/// `t` with its status replaced by `st`.
pub open spec fn with_status(t: PartialDownloadTask, st: TaskStatus) -> PartialDownloadTask {
    PartialDownloadTask { status: st, ..t }
}

/// The status a task is admitted with into `s` under the bound `k`: a task
/// that would download beyond the bound waits instead.
pub open spec fn admitted_status(s: Seq<PartialDownloadTask>, k: usize, st: TaskStatus) -> TaskStatus {
    if st == TaskStatus::Downloading && count_status(s, TaskStatus::Downloading) >= k {
        TaskStatus::Waiting
    } else {
        st
    }
}

/// The mirror after adding `t`: unchanged when a task with the same id or the
/// same (kind, source) is there, else `t` appended with its admitted status.
pub open spec fn spec_add(s: Seq<PartialDownloadTask>, k: usize, t: PartialDownloadTask) -> Seq<PartialDownloadTask> {
    if has_id(s, t.id) || has_kind_url(s, t.dl_type, t.url@) {
        s
    } else {
        s.push(with_status(t, admitted_status(s, k, t.status)))
    }
}

pub proof fn lemma_count_status_update(s: Seq<PartialDownloadTask>, i: int, t: PartialDownloadTask, st: TaskStatus)
    requires
        0 <= i < s.len(),
    ensures
        count_status(s.update(i, t), st) == count_status(s, st)
            - (if s[i].status == st { 1int } else { 0int })
            + (if t.status == st { 1int } else { 0int }),
    decreases s.len(),
{
    if i == s.len() - 1 {
        assert(s.update(i, t).drop_last() =~= s.drop_last());
    } else {
        lemma_count_status_update(s.drop_last(), i, t, st);
        assert(s.update(i, t).drop_last() =~= s.drop_last().update(i, t));
    }
}

pub proof fn lemma_count_status_push(s: Seq<PartialDownloadTask>, t: PartialDownloadTask, st: TaskStatus)
    ensures
        count_status(s.push(t), st) == count_status(s, st) + if t.status == st { 1nat } else { 0nat },
{
    assert(s.push(t).drop_last() =~= s);
}

pub proof fn lemma_count_kind_url_absent(s: Seq<PartialDownloadTask>, kind: DlType, url: Seq<char>)
    ensures
        !has_kind_url(s, kind, url) <==> count_kind_url(s, kind, url) == 0,
    decreases s.len(),
{
    if s.len() > 0 {
        lemma_count_kind_url_absent(s.drop_last(), kind, url);
        if has_kind_url(s.drop_last(), kind, url) {
            let i = choose|i: int| 0 <= i < s.drop_last().len() && #[trigger] s.drop_last()[i].dl_type == kind && s.drop_last()[i].url@ == url;
            assert(s[i].dl_type == kind);
        }
        if has_kind_url(s, kind, url) {
            let i = choose|i: int| 0 <= i < s.len() && #[trigger] s[i].dl_type == kind && s[i].url@ == url;
            if i < s.len() - 1 {
                assert(s.drop_last()[i].dl_type == kind);
            }
        }
    }
}

/// Adding the same (kind, source) twice creates exactly one task: after the
/// second addition the mirror holds one task with that kind and source, and
/// it is the mirror the first addition left.
pub proof fn add_twice_creates_one(
    s: Seq<PartialDownloadTask>,
    k: usize,
    t1: PartialDownloadTask,
    t2: PartialDownloadTask,
)
    requires
        t1.dl_type == t2.dl_type,
        t1.url@ == t2.url@,
        !has_kind_url(s, t1.dl_type, t1.url@),
        !has_id(s, t1.id),
    ensures
        spec_add(spec_add(s, k, t1), k, t2) == spec_add(s, k, t1),
        count_kind_url(spec_add(spec_add(s, k, t1), k, t2), t1.dl_type, t1.url@) == 1,
{
    let s1 = spec_add(s, k, t1);
    let n = s.len() as int;
    assert(s1[n].dl_type == t2.dl_type && s1[n].url@ == t2.url@);
    assert(has_kind_url(s1, t2.dl_type, t2.url@));
    lemma_count_kind_url_absent(s, t1.dl_type, t1.url@);
    assert(s1.drop_last() =~= s);
}


/// The status a bulk start gives the task at `i` of `s` under the bound `k`:
/// stopped and failed tasks download, in mirror order, while capacity lasts,
/// and wait after that; other tasks keep their status.
pub open spec fn start_all_status(s: Seq<PartialDownloadTask>, k: usize, i: int) -> TaskStatus {
    if is_resumable(s[i].status) {
        if count_resumable(s.subrange(0, i)) + count_status(s, TaskStatus::Downloading) < k {
            TaskStatus::Downloading
        } else {
            TaskStatus::Waiting
        }
    } else {
        s[i].status
    }
}

/// The status changes that turn `a` into `b` at the positions where `pick`
/// holds of the old status, in mirror order.
pub open spec fn changes_where(a: Seq<PartialDownloadTask>, b: Seq<PartialDownloadTask>, pick: spec_fn(TaskStatus) -> bool) -> Seq<StartAllData>
    decreases a.len(),
{
    if a.len() == 0 || b.len() == 0 {
        Seq::empty()
    } else if pick(a.last().status) {
        changes_where(a.drop_last(), b.drop_last(), pick).push(StartAllData { id: a.last().id, status: b.last().status })
    } else {
        changes_where(a.drop_last(), b.drop_last(), pick)
    }
}

/// Picks the stopped and failed tasks.
pub open spec fn resumable_pick() -> spec_fn(TaskStatus) -> bool {
    |st: TaskStatus| is_resumable(st)
}

/// A pause stops tasks that wait and, when `with_downloading`, those that download.
pub open spec fn pausable(with_downloading: bool) -> spec_fn(TaskStatus) -> bool {
    |st: TaskStatus| st == TaskStatus::Waiting || (with_downloading && st == TaskStatus::Downloading)
}

/// The tasks of `s` that download, in mirror order.
pub open spec fn keep_downloading(s: Seq<PartialDownloadTask>) -> Seq<PartialDownloadTask>
    decreases s.len(),
{
    if s.len() == 0 {
        Seq::empty()
    } else if s.last().status == TaskStatus::Downloading {
        keep_downloading(s.drop_last()).push(s.last())
    } else {
        keep_downloading(s.drop_last())
    }
}

pub proof fn lemma_no_status(s: Seq<PartialDownloadTask>, st: TaskStatus)
    requires
        forall|i: int| 0 <= i < s.len() ==> #[trigger] s[i].status != st,
    ensures
        count_status(s, st) == 0,
    decreases s.len(),
{
    if s.len() > 0 {
        assert forall|i: int| 0 <= i < s.drop_last().len() implies #[trigger] s.drop_last()[i].status != st by {
            assert(s[i].status != st);
        }
        lemma_no_status(s.drop_last(), st);
    }
}

pub proof fn lemma_keep_downloading(s: Seq<PartialDownloadTask>)
    ensures
        count_status(keep_downloading(s), TaskStatus::Downloading) == count_status(s, TaskStatus::Downloading),
        keep_downloading(s).len() == count_status(s, TaskStatus::Downloading),
    decreases s.len(),
{
    if s.len() > 0 {
        lemma_keep_downloading(s.drop_last());
        if s.last().status == TaskStatus::Downloading {
            lemma_count_status_push(keep_downloading(s.drop_last()), s.last(), TaskStatus::Downloading);
        }
    }
}


pub proof fn lemma_count_status_remove(s: Seq<PartialDownloadTask>, i: int)
    requires
        0 <= i < s.len(),
    ensures
        count_status(s.remove(i), TaskStatus::Downloading) + (if s[i].status == TaskStatus::Downloading { 1int } else { 0int })
            == count_status(s, TaskStatus::Downloading),
    decreases s.len(),
{
    if i == s.len() - 1 {
        assert(s.remove(i) =~= s.drop_last());
    } else {
        lemma_count_status_remove(s.drop_last(), i);
        assert(s.remove(i).drop_last() =~= s.drop_last().remove(i));
        assert(s.remove(i).last() == s.last());
    }
}

/// Admission bound and count of the tasks downloading now.
#[derive(Debug)]
pub struct GetDownloadingCount {
    pub count: usize,
    pub downloading_ids: Vec<i32>,
}

/// A status change made by a bulk operation.
#[derive(PartialEq, Eq, Structural, Clone, Copy, Debug)]
pub struct StartAllData {
    pub id: i32,
    pub status: TaskStatus,
}

/// What a start or pause request did.
#[derive(PartialEq, Eq, Structural, Clone, Copy, Debug)]
pub enum StartDecision {
    /// No task has that id.
    NotFound,
    /// The task was paused.
    Paused,
    /// The task was downloading already: nothing changed.
    AlreadyDownloading,
    /// The bound is reached: the task waits for capacity.
    Queued,
    /// The task was admitted and downloads now.
    Started,
}

/// Ids of the tasks of `s` with status `st`, in mirror order.
pub open spec fn ids_with_status(s: Seq<PartialDownloadTask>, st: TaskStatus) -> Seq<i32>
    decreases s.len(),
{
    if s.len() == 0 {
        Seq::empty()
    } else if s.last().status == st {
        ids_with_status(s.drop_last(), st).push(s.last().id)
    } else {
        ids_with_status(s.drop_last(), st)
    }
}

/// The mirror of all tasks, with the bound `max_downloading` on how many may
/// download at once.
pub struct Scheduler {
    pub tasks: Vec<PartialDownloadTask>,
    pub max_downloading: usize,
}

impl Scheduler {
    /// Ids are unique, no two tasks share a (kind, source) pair, and no more
    /// than `max_downloading` tasks download.
    pub open spec fn wf(&self) -> bool {
        &&& ids_unique(self.tasks@)
        &&& count_status(self.tasks@, TaskStatus::Downloading) <= self.max_downloading
    }

    /// An empty mirror with the bound `max_downloading`.
    pub fn new(max_downloading: usize) -> (r: Scheduler)
        ensures
            r.wf(),
            r.tasks@.len() == 0,
            r.max_downloading == max_downloading,
    {
        Scheduler { tasks: Vec::new(), max_downloading }
    }

    /// Position of the task with id `id`.
    pub fn find(&self, id: i32) -> (r: Option<usize>)
        ensures
            r.is_none() ==> !has_id(self.tasks@, id),
            r.is_some() ==> r.unwrap() < self.tasks@.len() && self.tasks@[r.unwrap() as int].id == id,
    {
        let mut i: usize = 0;
        while i < self.tasks.len()
            invariant
                i <= self.tasks@.len(),
                forall|j: int| 0 <= j < i ==> #[trigger] self.tasks@[j].id != id,
            decreases self.tasks@.len() - i,
        {
            if self.tasks[i].id == id {
                return Some(i);
            }
            i = i + 1;
        }
        None
    }

    /// Whether a task of kind `kind` with source `url` is in the mirror.
    pub fn has_task(&self, kind: DlType, url: &String) -> (r: bool)
        ensures
            r == has_kind_url(self.tasks@, kind, url@),
    {
        let mut i: usize = 0;
        while i < self.tasks.len()
            invariant
                i <= self.tasks@.len(),
                forall|j: int| 0 <= j < i ==> !(#[trigger] self.tasks@[j].dl_type == kind && self.tasks@[j].url@ == url@),
            decreases self.tasks@.len() - i,
        {
            if self.tasks[i].dl_type == kind && self.tasks[i].url == *url {
                return true;
            }
            i = i + 1;
        }
        false
    }

    /// Number of tasks downloading now.
    pub fn count_downloading(&self) -> (r: usize)
        ensures
            r == count_status(self.tasks@, TaskStatus::Downloading),
    {
        let mut r: usize = 0;
        let mut i: usize = 0;
        while i < self.tasks.len()
            invariant
                i <= self.tasks@.len(),
                r == count_status(self.tasks@.subrange(0, i as int), TaskStatus::Downloading),
                r <= i,
            decreases self.tasks@.len() - i,
        {
            assert(self.tasks@.subrange(0, i + 1).drop_last() =~= self.tasks@.subrange(0, i as int));
            if self.tasks[i].status == TaskStatus::Downloading {
                r = r + 1;
            }
            i = i + 1;
        }
        assert(self.tasks@.subrange(0, i as int) =~= self.tasks@);
        r
    }

    /// The number and the ids of the tasks downloading now.
    pub fn get_downloading_count(&self) -> (r: GetDownloadingCount)
        ensures
            r.count == count_status(self.tasks@, TaskStatus::Downloading),
            r.downloading_ids@ == ids_with_status(self.tasks@, TaskStatus::Downloading),
    {
        let mut ids: Vec<i32> = Vec::new();
        let mut r: usize = 0;
        let mut i: usize = 0;
        while i < self.tasks.len()
            invariant
                i <= self.tasks@.len(),
                r == count_status(self.tasks@.subrange(0, i as int), TaskStatus::Downloading),
                ids@ == ids_with_status(self.tasks@.subrange(0, i as int), TaskStatus::Downloading),
                r <= i,
            decreases self.tasks@.len() - i,
        {
            assert(self.tasks@.subrange(0, i + 1).drop_last() =~= self.tasks@.subrange(0, i as int));
            if self.tasks[i].status == TaskStatus::Downloading {
                r = r + 1;
                ids.push(self.tasks[i].id);
            }
            i = i + 1;
        }
        assert(self.tasks@.subrange(0, i as int) =~= self.tasks@);
        GetDownloadingCount { count: r, downloading_ids: ids }
    }

    /// Adds `t` unless a task with its id, or with its kind and source, is
    /// there already; a task that would download beyond the bound waits.
    /// Returns whether it was added.
    pub fn add_task(&mut self, t: PartialDownloadTask) -> (added: bool)
        requires
            old(self).wf(),
        ensures
            final(self).wf(),
            final(self).max_downloading == old(self).max_downloading,
            final(self).tasks@ == spec_add(old(self).tasks@, old(self).max_downloading, t),
            added == !(has_id(old(self).tasks@, t.id) || has_kind_url(old(self).tasks@, t.dl_type, t.url@)),
    {
        if self.find(t.id).is_some() || self.has_task(t.dl_type, &t.url) {
            return false;
        }
        let n = self.count_downloading();
        let st = if t.status == TaskStatus::Downloading && n >= self.max_downloading {
            TaskStatus::Waiting
        } else {
            t.status
        };
        let ghost s0 = self.tasks@;
        let ghost t0 = t;
        let mut t = t;
        t.status = st;
        assert(t == with_status(t0, admitted_status(s0, self.max_downloading, t0.status)));
        self.tasks.push(t);
        proof {
            lemma_count_status_push(s0, t, TaskStatus::Downloading);
            assert forall|i: int, j: int| 0 <= i < self.tasks@.len() && 0 <= j < self.tasks@.len() && i != j
                implies distinct_tasks(#[trigger] self.tasks@[i], #[trigger] self.tasks@[j]) by {
                if i == s0.len() {
                    assert(s0[j].id == self.tasks@[j].id);
                } else if j == s0.len() {
                    assert(s0[i].id == self.tasks@[i].id);
                }
            }
        }
        true
    }

    /// Sets the status of the task at `i` to `st`.
    fn set_status(&mut self, i: usize, st: TaskStatus)
        requires
            i < old(self).tasks@.len(),
            ids_unique(old(self).tasks@),
        ensures
            final(self).tasks@ == old(self).tasks@.update(i as int, with_status(old(self).tasks@[i as int], st)),
            final(self).max_downloading == old(self).max_downloading,
            ids_unique(final(self).tasks@),
            count_status(final(self).tasks@, TaskStatus::Downloading) == count_status(old(self).tasks@, TaskStatus::Downloading)
                - (if old(self).tasks@[i as int].status == TaskStatus::Downloading { 1int } else { 0int })
                + (if st == TaskStatus::Downloading { 1int } else { 0int }),
    {
        let ghost s0 = self.tasks@;
        self.tasks[i].status = st;
        proof {
            assert(self.tasks@ =~= s0.update(i as int, with_status(s0[i as int], st)));
            lemma_count_status_update(s0, i as int, with_status(s0[i as int], st), TaskStatus::Downloading);
            assert forall|a: int, b: int| 0 <= a < self.tasks@.len() && 0 <= b < self.tasks@.len() && a != b
                implies distinct_tasks(#[trigger] self.tasks@[a], #[trigger] self.tasks@[b]) by {
                assert(self.tasks@[a].id == s0[a].id);
                assert(self.tasks@[b].id == s0[b].id);
            }
        }
    }

    /// A request to start (`requested` other than `Stopped`) or pause the task
    /// `id`. A pause stops the task. A start of a task that is not downloading
    /// admits it when fewer than `max_downloading` tasks download, and makes
    /// it wait otherwise.
    pub fn start_or_pause(&mut self, id: i32, requested: TaskStatus) -> (r: StartDecision)
        requires
            old(self).wf(),
        ensures
            final(self).wf(),
            final(self).max_downloading == old(self).max_downloading,
            !has_id(old(self).tasks@, id) ==> r == StartDecision::NotFound && final(self).tasks@ == old(self).tasks@,
            forall|i: int| 0 <= i < old(self).tasks@.len() && #[trigger] old(self).tasks@[i].id == id ==> {
                let t = old(self).tasks@[i];
                let s = old(self).tasks@;
                if requested == TaskStatus::Stopped {
                    r == StartDecision::Paused && final(self).tasks@ == s.update(i, with_status(t, TaskStatus::Stopped))
                } else if t.status == TaskStatus::Downloading {
                    r == StartDecision::AlreadyDownloading && final(self).tasks@ == s
                } else if count_status(s, TaskStatus::Downloading) >= old(self).max_downloading {
                    r == StartDecision::Queued && final(self).tasks@ == s.update(i, with_status(t, TaskStatus::Waiting))
                } else {
                    r == StartDecision::Started && final(self).tasks@ == s.update(i, with_status(t, TaskStatus::Downloading))
                }
            },
    {
        let pos = self.find(id);
        match pos {
            None => StartDecision::NotFound,
            Some(i) => {
                proof {
                    assert forall|j: int| 0 <= j < self.tasks@.len() && #[trigger] self.tasks@[j].id == id implies j == i by {}
                }
                if requested == TaskStatus::Stopped {
                    self.set_status(i, TaskStatus::Stopped);
                    StartDecision::Paused
                } else if self.tasks[i].status == TaskStatus::Downloading {
                    StartDecision::AlreadyDownloading
                } else {
                    let n = self.count_downloading();
                    if n >= self.max_downloading {
                        self.set_status(i, TaskStatus::Waiting);
                        StartDecision::Queued
                    } else {
                        self.set_status(i, TaskStatus::Downloading);
                        StartDecision::Started
                    }
                }
            },
        }
    }

    /// Records the end of the task `id`: its final status (terminal), its
    /// progress text, done count and error list.
    pub fn finish_task(&mut self, id: i32, status: TaskStatus, progress: String, now_count: i32, error_vec: String) -> (found: bool)
        requires
            old(self).wf(),
            status.is_terminal(),
        ensures
            final(self).wf(),
            final(self).max_downloading == old(self).max_downloading,
            found == has_id(old(self).tasks@, id),
            !found ==> final(self).tasks@ == old(self).tasks@,
            forall|i: int| 0 <= i < old(self).tasks@.len() && #[trigger] old(self).tasks@[i].id == id ==>
                final(self).tasks@ == old(self).tasks@.update(i, PartialDownloadTask {
                    status,
                    progress,
                    now_count,
                    error_vec,
                    ..old(self).tasks@[i]
                }),
    {
        match self.find(id) {
            None => false,
            Some(i) => {
                proof {
                    assert forall|j: int| 0 <= j < self.tasks@.len() && #[trigger] self.tasks@[j].id == id implies j == i by {}
                }
                self.set_status(i, status);
                self.tasks[i].progress = progress;
                self.tasks[i].now_count = now_count;
                self.tasks[i].error_vec = error_vec;
                proof {
                    assert forall|a: int, b: int| 0 <= a < self.tasks@.len() && 0 <= b < self.tasks@.len() && a != b
                        implies distinct_tasks(#[trigger] self.tasks@[a], #[trigger] self.tasks@[b]) by {
                        assert(self.tasks@[a].id == old(self).tasks@[a].id);
                        assert(self.tasks@[b].id == old(self).tasks@[b].id);
                    }
                    lemma_count_status_update(old(self).tasks@, i as int, self.tasks@[i as int], TaskStatus::Downloading);
                    assert(self.tasks@ =~= old(self).tasks@.update(i as int, self.tasks@[i as int]));
                }
                true
            },
        }
    }

    /// Records intermediate progress of the task `id`.
    pub fn update_progress(&mut self, id: i32, progress: String, now_count: i32) -> (found: bool)
        requires
            old(self).wf(),
        ensures
            final(self).wf(),
            final(self).max_downloading == old(self).max_downloading,
            found == has_id(old(self).tasks@, id),
            !found ==> final(self).tasks@ == old(self).tasks@,
            forall|i: int| 0 <= i < old(self).tasks@.len() && #[trigger] old(self).tasks@[i].id == id ==>
                final(self).tasks@ == old(self).tasks@.update(i, PartialDownloadTask {
                    progress,
                    now_count,
                    ..old(self).tasks@[i]
                }),
    {
        match self.find(id) {
            None => false,
            Some(i) => {
                proof {
                    assert forall|j: int| 0 <= j < self.tasks@.len() && #[trigger] self.tasks@[j].id == id implies j == i by {}
                }
                self.tasks[i].progress = progress;
                self.tasks[i].now_count = now_count;
                proof {
                    assert forall|a: int, b: int| 0 <= a < self.tasks@.len() && 0 <= b < self.tasks@.len() && a != b
                        implies distinct_tasks(#[trigger] self.tasks@[a], #[trigger] self.tasks@[b]) by {
                        assert(self.tasks@[a].id == old(self).tasks@[a].id);
                        assert(self.tasks@[b].id == old(self).tasks@[b].id);
                    }
                    lemma_count_status_update(old(self).tasks@, i as int, self.tasks@[i as int], TaskStatus::Downloading);
                    assert(self.tasks@ =~= old(self).tasks@.update(i as int, self.tasks@[i as int]));
                }
                true
            },
        }
    }

    /// Starts every stopped or failed task: in mirror order, each one
    /// downloads while fewer than `max_downloading` tasks download, and waits
    /// after that. Returns the changes made.
    pub fn start_all(&mut self) -> (changed: Vec<StartAllData>)
        requires
            old(self).wf(),
        ensures
            final(self).wf(),
            final(self).max_downloading == old(self).max_downloading,
            final(self).tasks@.len() == old(self).tasks@.len(),
            forall|i: int| 0 <= i < old(self).tasks@.len() ==> #[trigger] final(self).tasks@[i]
                == with_status(old(self).tasks@[i], start_all_status(old(self).tasks@, old(self).max_downloading, i)),
            changed@ == changes_where(old(self).tasks@, final(self).tasks@, resumable_pick()),
    {
        let ghost s0 = self.tasks@;
        let ghost k = self.max_downloading;
        let ghost d0 = count_status(s0, TaskStatus::Downloading);
        let ghost pick = resumable_pick();
        let mut dl = self.count_downloading();
        let mut changed: Vec<StartAllData> = Vec::new();
        let mut i: usize = 0;
        while i < self.tasks.len()
            invariant
                self.max_downloading == k,
                pick == resumable_pick(),
                self.tasks@.len() == s0.len(),
                i <= s0.len(),
                ids_unique(self.tasks@),
                d0 <= k,
                d0 == count_status(s0, TaskStatus::Downloading),
                dl == count_status(self.tasks@, TaskStatus::Downloading),
                dl == d0 + if count_resumable(s0.subrange(0, i as int)) < k - d0 {
                    count_resumable(s0.subrange(0, i as int)) as int
                } else {
                    k - d0
                },
                forall|j: int| 0 <= j < i ==> #[trigger] self.tasks@[j] == with_status(s0[j], start_all_status(s0, k, j)),
                forall|j: int| i <= j < s0.len() ==> #[trigger] self.tasks@[j] == s0[j],
                changed@ == changes_where(s0.subrange(0, i as int), self.tasks@.subrange(0, i as int), pick),
            decreases s0.len() - i,
        {
            proof {
                assert(s0.subrange(0, i + 1).drop_last() =~= s0.subrange(0, i as int));
                assert(s0[i as int] == self.tasks@[i as int]);
            }
            let ghost pre = self.tasks@.subrange(0, i as int);
            let st = self.tasks[i].status;
            if st == TaskStatus::Stopped || st == TaskStatus::Failed {
                let id = self.tasks[i].id;
                if dl < self.max_downloading {
                    self.set_status(i, TaskStatus::Downloading);
                    dl = dl + 1;
                    changed.push(StartAllData { id, status: TaskStatus::Downloading });
                } else {
                    self.set_status(i, TaskStatus::Waiting);
                    changed.push(StartAllData { id, status: TaskStatus::Waiting });
                }
            } else {
                proof {
                    assert(with_status(s0[i as int], s0[i as int].status) == s0[i as int]);
                }
            }
            proof {
                assert(self.tasks@.subrange(0, i as int) =~= pre);
                assert(self.tasks@.subrange(0, i + 1).drop_last() =~= self.tasks@.subrange(0, i as int));
                assert(self.tasks@.subrange(0, i + 1).last() == self.tasks@[i as int]);
                assert(s0.subrange(0, i + 1).last() == s0[i as int]);
            }
            i = i + 1;
        }
        proof {
            assert(s0.subrange(0, i as int) =~= s0);
            assert(self.tasks@.subrange(0, i as int) =~= self.tasks@);
        }
        changed
    }

    fn stop_where(&mut self, with_downloading: bool) -> (changed: Vec<StartAllData>)
        requires
            old(self).wf(),
        ensures
            final(self).wf(),
            final(self).max_downloading == old(self).max_downloading,
            final(self).tasks@.len() == old(self).tasks@.len(),
            forall|i: int| 0 <= i < old(self).tasks@.len() ==> #[trigger] final(self).tasks@[i]
                == if (pausable(with_downloading))(old(self).tasks@[i].status) {
                    with_status(old(self).tasks@[i], TaskStatus::Stopped)
                } else {
                    old(self).tasks@[i]
                },
            changed@ == changes_where(old(self).tasks@, final(self).tasks@, pausable(with_downloading)),
    {
        let ghost s0 = self.tasks@;
        let ghost pick = pausable(with_downloading);
        let mut changed: Vec<StartAllData> = Vec::new();
        let mut i: usize = 0;
        while i < self.tasks.len()
            invariant
                self.max_downloading == old(self).max_downloading,
                s0 == old(self).tasks@,
                pick == pausable(with_downloading),
                self.tasks@.len() == s0.len(),
                i <= s0.len(),
                ids_unique(self.tasks@),
                count_status(self.tasks@, TaskStatus::Downloading) <= count_status(s0, TaskStatus::Downloading),
                count_status(s0, TaskStatus::Downloading) <= self.max_downloading,
                forall|j: int| 0 <= j < i ==> #[trigger] self.tasks@[j]
                    == if pick(s0[j].status) { with_status(s0[j], TaskStatus::Stopped) } else { s0[j] },
                forall|j: int| i <= j < s0.len() ==> #[trigger] self.tasks@[j] == s0[j],
                changed@ == changes_where(s0.subrange(0, i as int), self.tasks@.subrange(0, i as int), pick),
            decreases s0.len() - i,
        {
            proof {
                assert(s0.subrange(0, i + 1).drop_last() =~= s0.subrange(0, i as int));
                assert(s0[i as int] == self.tasks@[i as int]);
            }
            let ghost pre = self.tasks@.subrange(0, i as int);
            let st = self.tasks[i].status;
            if st == TaskStatus::Waiting || (with_downloading && st == TaskStatus::Downloading) {
                let id = self.tasks[i].id;
                self.set_status(i, TaskStatus::Stopped);
                changed.push(StartAllData { id, status: TaskStatus::Stopped });
            }
            proof {
                assert(self.tasks@.subrange(0, i as int) =~= pre);
                assert(self.tasks@.subrange(0, i + 1).drop_last() =~= self.tasks@.subrange(0, i as int));
                assert(self.tasks@.subrange(0, i + 1).last() == self.tasks@[i as int]);
                assert(s0.subrange(0, i + 1).last() == s0[i as int]);
            }
            i = i + 1;
        }
        proof {
            assert(s0.subrange(0, i as int) =~= s0);
            assert(self.tasks@.subrange(0, i as int) =~= self.tasks@);
        }
        changed
    }

    /// Stops every task that downloads or waits. Returns the changes made.
    pub fn pause_all(&mut self) -> (changed: Vec<StartAllData>)
        requires
            old(self).wf(),
        ensures
            final(self).wf(),
            final(self).max_downloading == old(self).max_downloading,
            final(self).tasks@.len() == old(self).tasks@.len(),
            forall|i: int| 0 <= i < old(self).tasks@.len() ==> #[trigger] final(self).tasks@[i]
                == if old(self).tasks@[i].status == TaskStatus::Downloading || old(self).tasks@[i].status == TaskStatus::Waiting {
                    with_status(old(self).tasks@[i], TaskStatus::Stopped)
                } else {
                    old(self).tasks@[i]
                },
            changed@ == changes_where(old(self).tasks@, final(self).tasks@, pausable(true)),
    {
        self.stop_where(true)
    }

    /// Stops every task that waits; downloading tasks go on. Returns the
    /// changes made.
    pub fn pause_all_waiting(&mut self) -> (changed: Vec<StartAllData>)
        requires
            old(self).wf(),
        ensures
            final(self).wf(),
            final(self).max_downloading == old(self).max_downloading,
            final(self).tasks@.len() == old(self).tasks@.len(),
            forall|i: int| 0 <= i < old(self).tasks@.len() ==> #[trigger] final(self).tasks@[i]
                == if old(self).tasks@[i].status == TaskStatus::Waiting {
                    with_status(old(self).tasks@[i], TaskStatus::Stopped)
                } else {
                    old(self).tasks@[i]
                },
            changed@ == changes_where(old(self).tasks@, final(self).tasks@, pausable(false)),
    {
        self.stop_where(false)
    }

    /// Whether the task `id` may be deleted: it exists and is not downloading.
    pub fn deletable(&self, id: i32) -> (r: bool)
        requires
            self.wf(),
        ensures
            r == idle_id(self.tasks@, id),
    {
        match self.find(id) {
            None => false,
            Some(i) => {
                proof {
                    assert forall|j: int| 0 <= j < self.tasks@.len() && #[trigger] self.tasks@[j].id == id implies j == i by {}
                }
                self.tasks[i].status != TaskStatus::Downloading
            },
        }
    }

    /// Removes the task `id` unless it is downloading: only a task that is
    /// not active may be deleted. Returns whether it was removed.
    pub fn delete_task(&mut self, id: i32) -> (deleted: bool)
        requires
            old(self).wf(),
        ensures
            final(self).wf(),
            final(self).max_downloading == old(self).max_downloading,
            deleted == idle_id(old(self).tasks@, id),
            !deleted ==> final(self).tasks@ == old(self).tasks@,
            forall|i: int| 0 <= i < old(self).tasks@.len() && #[trigger] old(self).tasks@[i].id == id ==>
                if old(self).tasks@[i].status == TaskStatus::Downloading {
                    final(self).tasks@ == old(self).tasks@
                } else {
                    final(self).tasks@ == old(self).tasks@.remove(i)
                },
    {
        match self.find(id) {
            None => false,
            Some(i) => {
                proof {
                    assert forall|j: int| 0 <= j < self.tasks@.len() && #[trigger] self.tasks@[j].id == id implies j == i by {}
                }
                if self.tasks[i].status == TaskStatus::Downloading {
                    return false;
                }
                let ghost s0 = self.tasks@;
                let _removed = self.tasks.remove(i);
                proof {
                    assert(s0 =~= s0.remove(i as int).insert(i as int, s0[i as int]));
                    lemma_count_status_remove(s0, i as int);
                    assert forall|a: int, b: int| 0 <= a < self.tasks@.len() && 0 <= b < self.tasks@.len() && a != b
                        implies distinct_tasks(#[trigger] self.tasks@[a], #[trigger] self.tasks@[b]) by {
                        let a0 = if a < i { a } else { a + 1 };
                        let b0 = if b < i { b } else { b + 1 };
                        assert(self.tasks@[a] == s0[a0]);
                        assert(self.tasks@[b] == s0[b0]);
                    }
                }
                true
            },
        }
    }

    /// Removes every task that is not downloading. Returns the ids removed,
    /// in mirror order.
    pub fn delete_all(&mut self) -> (removed: Vec<i32>)
        requires
            old(self).wf(),
        ensures
            final(self).wf(),
            final(self).max_downloading == old(self).max_downloading,
            final(self).tasks@ == keep_downloading(old(self).tasks@),
            removed@ == idle_ids(old(self).tasks@),
            removed@.len() + final(self).tasks@.len() == old(self).tasks@.len(),
    {
        let ghost s0 = self.tasks@;
        let mut rest: Vec<PartialDownloadTask> = Vec::new();
        std::mem::swap(&mut rest, &mut self.tasks);
        let mut removed: Vec<i32> = Vec::new();
        let ghost mut n: int = 0;
        while rest.len() > 0
            invariant
                self.max_downloading == old(self).max_downloading,
                s0 == old(self).tasks@,
                0 <= n <= s0.len(),
                rest@ == s0.subrange(n, s0.len() as int),
                self.tasks@ == keep_downloading(s0.subrange(0, n)),
                removed@.len() + self.tasks@.len() == n,
                ids_unique(s0),
                forall|a: int| 0 <= a < self.tasks@.len() ==> exists|j: int| 0 <= j < n && #[trigger] self.tasks@[a] == s0[j],
                ids_unique(self.tasks@),
                removed@ == idle_ids(s0.subrange(0, n)),
            decreases rest@.len(),
        {
            let t = rest.remove(0);
            proof {
                assert(t == s0[n]);
                assert(s0.subrange(0, n + 1).drop_last() =~= s0.subrange(0, n));
                assert(rest@ =~= s0.subrange(n + 1, s0.len() as int));
            }
            if t.status == TaskStatus::Downloading {
                let ghost before = self.tasks@;
                self.tasks.push(t);
                proof {
                    assert forall|a: int| 0 <= a < self.tasks@.len() implies exists|j: int| 0 <= j < n + 1 && #[trigger] self.tasks@[a] == s0[j] by {
                        if a < before.len() {
                            let j = choose|j: int| 0 <= j < n && #[trigger] before[a] == s0[j];
                            assert(self.tasks@[a] == s0[j]);
                        } else {
                            assert(self.tasks@[a] == s0[n]);
                        }
                    }
                    assert forall|a: int, b: int| 0 <= a < self.tasks@.len() && 0 <= b < self.tasks@.len() && a != b
                        implies distinct_tasks(#[trigger] self.tasks@[a], #[trigger] self.tasks@[b]) by {
                        if a == before.len() {
                            let j = choose|j: int| 0 <= j < n && #[trigger] before[b] == s0[j];
                            assert(distinct_tasks(s0[j], s0[n]));
                        } else if b == before.len() {
                            let j = choose|j: int| 0 <= j < n && #[trigger] before[a] == s0[j];
                            assert(distinct_tasks(s0[j], s0[n]));
                        } else {
                            assert(distinct_tasks(before[a], before[b]));
                        }
                    }
                }
            } else {
                removed.push(t.id);
            }
            proof {
                n = n + 1;
            }
        }
        proof {
            assert(s0.subrange(0, n) =~= s0);
            lemma_keep_downloading(s0);
            lemma_idle_ids_len(s0);
        }
        removed
    }


    /// Position of the waiting task with the lowest id, if any task waits.
    fn lowest_waiting(&self) -> (r: Option<usize>)
        requires
            ids_unique(self.tasks@),
        ensures
            r.is_none() ==> forall|k: int| 0 <= k < self.tasks@.len() ==> #[trigger] self.tasks@[k].status != TaskStatus::Waiting,
            r.is_some() ==> {
                let m = r.unwrap() as int;
                &&& 0 <= m < self.tasks@.len()
                &&& self.tasks@[m].status == TaskStatus::Waiting
                &&& forall|k: int| 0 <= k < self.tasks@.len() && k != m && #[trigger] self.tasks@[k].status == TaskStatus::Waiting
                    ==> self.tasks@[m].id < self.tasks@[k].id
            },
    {
        let mut best: Option<usize> = None;
        let mut j: usize = 0;
        while j < self.tasks.len()
            invariant
                j <= self.tasks@.len(),
                ids_unique(self.tasks@),
                best.is_none() ==> forall|k: int| 0 <= k < j ==> #[trigger] self.tasks@[k].status != TaskStatus::Waiting,
                best.is_some() ==> {
                    let m = best.unwrap() as int;
                    &&& 0 <= m < j
                    &&& self.tasks@[m].status == TaskStatus::Waiting
                    &&& forall|k: int| 0 <= k < j && k != m && #[trigger] self.tasks@[k].status == TaskStatus::Waiting
                        ==> self.tasks@[m].id < self.tasks@[k].id
                },
            decreases self.tasks@.len() - j,
        {
            if self.tasks[j].status == TaskStatus::Waiting {
                match best {
                    None => {
                        best = Some(j);
                    },
                    Some(m) => {
                        if self.tasks[j].id < self.tasks[m].id {
                            best = Some(j);
                        }
                    },
                }
            }
            j = j + 1;
        }
        best
    }

    /// Admits waiting tasks, lowest id (oldest) first, while fewer than
    /// `max_downloading` tasks download. Returns the ids admitted, in order.
    pub fn start_waiting(&mut self) -> (promoted: Vec<i32>)
        requires
            old(self).wf(),
        ensures
            final(self).wf(),
            final(self).max_downloading == old(self).max_downloading,
            only_admitted(old(self).tasks@, final(self).tasks@),
            promoted@.len() == if count_status(old(self).tasks@, TaskStatus::Waiting)
                < old(self).max_downloading - count_status(old(self).tasks@, TaskStatus::Downloading) {
                count_status(old(self).tasks@, TaskStatus::Waiting) as int
            } else {
                old(self).max_downloading - count_status(old(self).tasks@, TaskStatus::Downloading)
            },
            forall|j: int| 0 <= j < promoted@.len() ==> promoted_id(old(self).tasks@, final(self).tasks@, #[trigger] promoted@[j]),
            forall|i: int| 0 <= i < old(self).tasks@.len() && old(self).tasks@[i].status == TaskStatus::Waiting
                && #[trigger] final(self).tasks@[i].status == TaskStatus::Downloading ==> promoted@.contains(old(self).tasks@[i].id),
            forall|i: int, j: int| 0 <= i < final(self).tasks@.len() && 0 <= j < promoted@.len()
                && #[trigger] final(self).tasks@[i].status == TaskStatus::Waiting ==> #[trigger] promoted@[j] < final(self).tasks@[i].id,
    {
        let ghost s0 = self.tasks@;
        let ghost d0 = count_status(s0, TaskStatus::Downloading);
        let ghost w0 = count_status(s0, TaskStatus::Waiting);
        let mut dl = self.count_downloading();
        let mut promoted: Vec<i32> = Vec::new();
        let mut exhausted = false;
        while dl < self.max_downloading && !exhausted
            invariant
                s0 == old(self).tasks@,
                self.max_downloading == old(self).max_downloading,
                d0 == count_status(s0, TaskStatus::Downloading),
                w0 == count_status(s0, TaskStatus::Waiting),
                d0 <= dl <= self.max_downloading,
                ids_unique(self.tasks@),
                dl == count_status(self.tasks@, TaskStatus::Downloading),
                promoted@.len() == dl - d0,
                count_status(self.tasks@, TaskStatus::Waiting) + promoted@.len() == w0,
                only_admitted(s0, self.tasks@),
                forall|j: int| 0 <= j < promoted@.len() ==> promoted_id(s0, self.tasks@, #[trigger] promoted@[j]),
                forall|i: int| 0 <= i < s0.len() && s0[i].status == TaskStatus::Waiting
                    && #[trigger] self.tasks@[i].status == TaskStatus::Downloading ==> promoted@.contains(s0[i].id),
                forall|i: int, j: int| 0 <= i < self.tasks@.len() && 0 <= j < promoted@.len()
                    && #[trigger] self.tasks@[i].status == TaskStatus::Waiting ==> #[trigger] promoted@[j] < self.tasks@[i].id,
                exhausted ==> count_status(self.tasks@, TaskStatus::Waiting) == 0,
            decreases self.max_downloading - dl + if exhausted { 0int } else { 1int },
        {
            match self.lowest_waiting() {
                None => {
                    proof {
                        lemma_no_status(self.tasks@, TaskStatus::Waiting);
                    }
                    exhausted = true;
                },
                Some(m) => {
                    let ghost cur = self.tasks@;
                    let ghost p0 = promoted@;
                    let id = self.tasks[m].id;
                    self.set_status(m, TaskStatus::Downloading);
                    promoted.push(id);
                    dl = dl + 1;
                    proof {
                        lemma_count_status_update(cur, m as int, with_status(cur[m as int], TaskStatus::Downloading), TaskStatus::Waiting);
                        assert(s0[m as int].status == TaskStatus::Waiting);
                        assert forall|i: int| 0 <= i < s0.len() implies #[trigger] self.tasks@[i] == s0[i]
                            || (s0[i].status == TaskStatus::Waiting && self.tasks@[i] == with_status(s0[i], TaskStatus::Downloading)) by {
                            if i != m {
                                assert(self.tasks@[i] == cur[i]);
                            }
                        }
                        assert forall|j: int| 0 <= j < promoted@.len() implies promoted_id(s0, self.tasks@, #[trigger] promoted@[j]) by {
                            if j < p0.len() {
                                assert(promoted@[j] == p0[j]);
                                assert(promoted_id(s0, cur, p0[j]));
                                let w = choose|i: int| 0 <= i < s0.len() && i < cur.len() && s0[i].status == TaskStatus::Waiting
                                    && cur[i].status == TaskStatus::Downloading && #[trigger] s0[i].id == p0[j];
                                assert(self.tasks@[w].status == TaskStatus::Downloading);
                            } else {
                                assert(promoted@[j] == id);
                                assert(s0[m as int].id == id);
                                assert(self.tasks@[m as int].status == TaskStatus::Downloading);
                            }
                        }
                        assert forall|i: int| 0 <= i < s0.len() && s0[i].status == TaskStatus::Waiting
                            && #[trigger] self.tasks@[i].status == TaskStatus::Downloading implies promoted@.contains(s0[i].id) by {
                            if i == m {
                                assert(promoted@[promoted@.len() - 1] == s0[i].id);
                            } else {
                                assert(cur[i] == self.tasks@[i]);
                                assert(p0.contains(s0[i].id));
                                let k = choose|k: int| 0 <= k < p0.len() && p0[k] == s0[i].id;
                                assert(promoted@[k] == s0[i].id);
                            }
                        }
                        assert forall|i: int, j: int| 0 <= i < self.tasks@.len() && 0 <= j < promoted@.len()
                            && #[trigger] self.tasks@[i].status == TaskStatus::Waiting implies #[trigger] promoted@[j] < self.tasks@[i].id by {
                            assert(i != m);
                            assert(cur[i] == self.tasks@[i]);
                            if j < p0.len() {
                                assert(promoted@[j] == p0[j]);
                            } else {
                                assert(cur[i].status == TaskStatus::Waiting);
                            }
                        }
                    }
                },
            }
        }
        promoted
    }


    /// Whether `a` comes strictly before `b` in display order.
    fn display_lt(a: &PartialDownloadTask, b: &PartialDownloadTask) -> (r: bool)
        ensures
            r == !display_le(*b, *a),
    {
        let ra = a.status.rank();
        let rb = b.status.rank();
        ra < rb || (ra == rb && (a.now_count > b.now_count || (a.now_count == b.now_count && a.count < b.count)))
    }

    /// Orders the mirror for display: downloading, waiting, stopped, failed,
    /// finished; within a status, more items done first, then fewer items.
    pub fn sort_tasks(&mut self)
        requires
            old(self).wf(),
        ensures
            final(self).wf(),
            final(self).max_downloading == old(self).max_downloading,
            display_sorted(final(self).tasks@),
            final(self).tasks@.to_multiset() == old(self).tasks@.to_multiset(),
    {
        broadcast use vstd::seq_lib::group_to_multiset_ensures;
        let ghost s0 = self.tasks@;
        let mut rest: Vec<PartialDownloadTask> = Vec::new();
        std::mem::swap(&mut rest, &mut self.tasks);
        let mut out: Vec<PartialDownloadTask> = Vec::new();
        while rest.len() > 0
            invariant
                self.max_downloading == old(self).max_downloading,
                s0 == old(self).tasks@,
                count_status(s0, TaskStatus::Downloading) <= self.max_downloading,
                display_sorted(out@),
                forall|a: int, b: int| 0 <= a < out@.len() && 0 <= b < rest@.len() ==> display_le(#[trigger] out@[a], #[trigger] rest@[b]),
                out@.to_multiset().add(rest@.to_multiset()) == s0.to_multiset(),
                count_status(out@, TaskStatus::Downloading) + count_status(rest@, TaskStatus::Downloading) == count_status(s0, TaskStatus::Downloading),
                ids_unique(out@),
                ids_unique(rest@),
                forall|a: int, b: int| 0 <= a < out@.len() && 0 <= b < rest@.len() ==> distinct_tasks(#[trigger] out@[a], #[trigger] rest@[b]),
            decreases rest@.len(),
        {
            let mut m: usize = 0;
            let mut j: usize = 1;
            while j < rest.len()
                invariant
                    0 < rest@.len(),
                    m < j <= rest@.len(),
                    forall|k: int| 0 <= k < j ==> display_le(rest@[m as int], #[trigger] rest@[k]),
                decreases rest@.len() - j,
            {
                if Self::display_lt(&rest[j], &rest[m]) {
                    m = j;
                }
                j = j + 1;
            }
            let ghost r0 = rest@;
            let ghost o0 = out@;
            let g = rest.remove(m);
            out.push(g);
            proof {
                r0.to_multiset_ensures();
                o0.to_multiset_ensures();
                assert(o0.push(g).to_multiset() == o0.to_multiset().insert(g));
                assert(r0.remove(m as int).to_multiset() == r0.to_multiset().remove(g));
                assert(r0.to_multiset().count(g) > 0);
                assert(out@.to_multiset().add(rest@.to_multiset()) =~= o0.to_multiset().add(r0.to_multiset()));
                lemma_count_status_remove(r0, m as int);
                lemma_count_status_push(o0, g, TaskStatus::Downloading);
                assert forall|a: int, b: int| 0 <= a < out@.len() && 0 <= b < rest@.len() implies display_le(#[trigger] out@[a], #[trigger] rest@[b]) by {
                    let b0 = if b < m { b } else { b + 1 };
                    assert(rest@[b] == r0[b0]);
                    if a < o0.len() {
                        assert(out@[a] == o0[a]);
                    }
                }
                assert forall|a: int, b: int| 0 <= a < b < out@.len() implies display_le(#[trigger] out@[a], #[trigger] out@[b]) by {
                    if b == out@.len() - 1 {
                        assert(out@[a] == o0[a]);
                        assert(out@[b] == r0[m as int]);
                    }
                }
                assert forall|a: int, b: int| 0 <= a < rest@.len() && 0 <= b < rest@.len() && a != b
                    implies distinct_tasks(#[trigger] rest@[a], #[trigger] rest@[b]) by {
                    let a0 = if a < m { a } else { a + 1 };
                    let b0 = if b < m { b } else { b + 1 };
                    assert(rest@[a] == r0[a0]);
                    assert(rest@[b] == r0[b0]);
                }
                assert forall|a: int, b: int| 0 <= a < out@.len() && 0 <= b < out@.len() && a != b
                    implies distinct_tasks(#[trigger] out@[a], #[trigger] out@[b]) by {
                    if a == o0.len() {
                        assert(out@[b] == o0[b]);
                        assert(out@[a] == r0[m as int]);
                    } else if b == o0.len() {
                        assert(out@[a] == o0[a]);
                        assert(out@[b] == r0[m as int]);
                    } else {
                        assert(out@[a] == o0[a]);
                        assert(out@[b] == o0[b]);
                    }
                }
                assert forall|a: int, b: int| 0 <= a < out@.len() && 0 <= b < rest@.len()
                    implies distinct_tasks(#[trigger] out@[a], #[trigger] rest@[b]) by {
                    let b0 = if b < m { b } else { b + 1 };
                    assert(rest@[b] == r0[b0]);
                    if a < o0.len() {
                        assert(out@[a] == o0[a]);
                    } else {
                        assert(out@[a] == r0[m as int]);
                    }
                }
            }
        }
        proof {
            assert(rest@.to_multiset() =~= vstd::multiset::Multiset::empty());
            assert(out@.to_multiset().add(vstd::multiset::Multiset::empty()) =~= out@.to_multiset());
            assert(count_status(rest@, TaskStatus::Downloading) == 0);
        }
        self.tasks = out;
    }

}

/// The status a stored task is loaded with when the application starts: no
/// transfer survives a restart, so a task that was downloading or waiting is
/// stopped, and resumes when it is started again.
pub fn status_after_restart(st: TaskStatus) -> (r: TaskStatus)
    ensures
        st == TaskStatus::Downloading || st == TaskStatus::Waiting ==> r == TaskStatus::Stopped,
        !(st == TaskStatus::Downloading || st == TaskStatus::Waiting) ==> r == st,
{
    if st == TaskStatus::Downloading || st == TaskStatus::Waiting {
        TaskStatus::Stopped
    } else {
        st
    }
}

} // verus!
