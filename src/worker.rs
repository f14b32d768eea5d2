//! Execution of one task: which items remain, when a fetch is retried, how
//! each item's outcome is accounted for, and the task's final status.
use vstd::prelude::*;
use crate::descriptor::{
    CurrentElement, Img, groups_done, groups_total, imgs_done, lemma_groups_done_bounded,
    lemma_groups_set, lemma_imgs_done_bounded, lemma_imgs_done_set, flags_grow,
};
use crate::task::TaskStatus;

verus! {

/// Position of one item in a descriptor: its group, then its index there.
#[derive(PartialEq, Eq, Structural, Clone, Copy, Debug)]
pub struct ItemRef {
    pub group_index: usize,
    pub index: usize,
}

/// `a` comes strictly before `b` in descriptor order.
pub open spec fn ref_before(a: ItemRef, b: ItemRef) -> bool {
    a.group_index < b.group_index || (a.group_index == b.group_index && a.index < b.index)
}

/// `r` names an item of `s` that is not done.
pub open spec fn is_pending(s: Seq<CurrentElement>, r: ItemRef) -> bool {
    &&& r.group_index < s.len()
    &&& r.index < s[r.group_index as int].imgs@.len()
    &&& !s[r.group_index as int].imgs@[r.index as int].done
}

/// Number of items of `s` not yet done.
pub open spec fn pending_count(s: Seq<CurrentElement>) -> int {
    groups_total(s) - groups_done(s)
}

/// Why an item could not be stored.
#[derive(PartialEq, Eq, Structural, Clone, Copy, Debug)]
pub enum ItemErrorKind {
    /// Every fetch attempt failed (network error, bad status or timeout).
    Fetch,
    /// The payload is not an image that could be decoded.
    Decode,
    /// The destination file could not be created or written.
    Write,
}

/// What became of one item.
#[derive(PartialEq, Eq, Structural, Clone, Copy, Debug)]
pub enum ItemOutcome {
    Done,
    Failed(ItemErrorKind),
    /// Not started: the task was asked to stop.
    Stopped,
}

/// The outcome of one item, at its position.
#[derive(PartialEq, Eq, Structural, Clone, Copy, Debug)]
pub struct DownloadResult {
    pub group_index: usize,
    pub index: usize,
    pub outcome: ItemOutcome,
}

/// A recorded per-item failure.
#[derive(PartialEq, Eq, Structural, Clone, Copy, Debug)]
pub struct ItemError {
    pub group_index: usize,
    pub index: usize,
    pub kind: ItemErrorKind,
}

/// What a completion asks to be written out.
#[derive(PartialEq, Eq, Structural, Clone, Copy, Debug)]
pub struct Checkpoint {
    /// Push progress to the in-memory mirror and the progress channel.
    pub sync_mirror: bool,
    /// Write progress and the descriptor to the task store.
    pub persist: bool,
}

/// Completions between two pushes to the mirror.
pub const MIRROR_EVERY: usize = 10;

/// Completions between two writes to the store.
pub const PERSIST_EVERY: usize = 30;

/// Lists the items of `groups` that are not done, in group order and, within
/// a group, in index order; done items are left out.
pub fn pending_items(groups: &Vec<CurrentElement>) -> (r: Vec<ItemRef>)
    ensures
        r@.len() == pending_count(groups@),
        forall|k: int| 0 <= k < r@.len() ==> is_pending(groups@, #[trigger] r@[k]),
        forall|k: int, l: int| 0 <= k < l < r@.len() ==> ref_before(#[trigger] r@[k], #[trigger] r@[l]),
        forall|x: ItemRef| is_pending(groups@, x) ==> exists|k: int| 0 <= k < r@.len() && #[trigger] r@[k] == x,
{
    let mut r: Vec<ItemRef> = Vec::new();
    let mut g: usize = 0;
    while g < groups.len()
        invariant
            g <= groups@.len(),
            r@.len() == pending_count(groups@.subrange(0, g as int)),
            forall|k: int| 0 <= k < r@.len() ==> is_pending(groups@, #[trigger] r@[k]),
            forall|k: int| 0 <= k < r@.len() ==> (#[trigger] r@[k]).group_index < g,
            forall|k: int, l: int| 0 <= k < l < r@.len() ==> ref_before(#[trigger] r@[k], #[trigger] r@[l]),
            forall|x: ItemRef| is_pending(groups@, x) && x.group_index < g ==> exists|k: int| 0 <= k < r@.len() && #[trigger] r@[k] == x,
        decreases groups@.len() - g,
    {
        let imgs = &groups[g].imgs;
        let ghost before = r@.len();
        let mut i: usize = 0;
        while i < imgs.len()
            invariant
                g < groups@.len(),
                imgs@ == groups@[g as int].imgs@,
                i <= imgs@.len(),
                before <= r@.len(),
                r@.len() == before + i - imgs_done(imgs@.subrange(0, i as int)),
                forall|k: int| 0 <= k < r@.len() ==> is_pending(groups@, #[trigger] r@[k]),
                forall|k: int| 0 <= k < before ==> (#[trigger] r@[k]).group_index < g,
                forall|k: int| before <= k < r@.len() ==> (#[trigger] r@[k]).group_index == g && r@[k].index < i,
                forall|k: int, l: int| 0 <= k < l < r@.len() ==> ref_before(#[trigger] r@[k], #[trigger] r@[l]),
                forall|x: ItemRef| is_pending(groups@, x) && (x.group_index < g || (x.group_index == g && x.index < i)) ==> exists|k: int| 0 <= k < r@.len() && #[trigger] r@[k] == x,
            decreases imgs@.len() - i,
        {
            proof {
                assert(imgs@.subrange(0, i + 1).drop_last() =~= imgs@.subrange(0, i as int));
                lemma_imgs_done_bounded(imgs@.subrange(0, i as int));
            }
            if !imgs[i].done {
                let item = ItemRef { group_index: g, index: i };
                let ghost old_r = r@;
                r.push(item);
                proof {
                    assert forall|x: ItemRef| is_pending(groups@, x) && (x.group_index < g || (x.group_index == g && x.index < i + 1)) implies exists|k: int| 0 <= k < r@.len() && #[trigger] r@[k] == x by {
                        if x == item {
                            assert(r@[r@.len() - 1] == x);
                        } else {
                            let k = choose|k: int| 0 <= k < old_r.len() && #[trigger] old_r[k] == x;
                            assert(r@[k] == x);
                        }
                    }
                }
            } else {
                proof {
                    assert forall|x: ItemRef| is_pending(groups@, x) && (x.group_index < g || (x.group_index == g && x.index < i + 1)) implies exists|k: int| 0 <= k < r@.len() && #[trigger] r@[k] == x by {
                        if x.group_index == g && x.index == i {
                            assert(false);
                        }
                    }
                }
            }
            i = i + 1;
        }
        proof {
            assert(imgs@.subrange(0, i as int) =~= imgs@);
            let p = groups@.subrange(0, g + 1);
            assert(p.drop_last() =~= groups@.subrange(0, g as int));
        }
        g = g + 1;
    }
    assert(groups@.subrange(0, g as int) =~= groups@);
    r
}

/// What to do after a fetch attempt.
#[derive(PartialEq, Eq, Structural, Clone, Copy, Debug)]
pub enum RetryStep {
    /// The attempt succeeded: go on with its payload.
    Proceed,
    /// The attempt failed and attempts remain: try again.
    Retry,
    /// The attempt failed and no attempt remains.
    GiveUp,
}

/// Decides the next step after the `attempts`-th attempt, of at most
/// `max_attempts`, succeeded or failed.
pub fn retry_step(attempts: u64, max_attempts: u64, succeeded: bool) -> (r: RetryStep)
    ensures
        succeeded ==> r == RetryStep::Proceed,
        !succeeded && attempts < max_attempts ==> r == RetryStep::Retry,
        !succeeded && attempts >= max_attempts ==> r == RetryStep::GiveUp,
{
    if succeeded {
        RetryStep::Proceed
    } else if attempts < max_attempts {
        RetryStep::Retry
    } else {
        RetryStep::GiveUp
    }
}

/// Whether an item may be started while the task has status `status`: no new
/// item starts once the task is asked to stop.
pub fn may_start_item(status: TaskStatus) -> (r: bool)
    ensures
        r == (status != TaskStatus::Stopped),
{
    status != TaskStatus::Stopped
}

/// The status a task ends with: `Failed` when an item error was recorded,
/// otherwise `Finished` when every item is done, otherwise `Stopped`.
pub fn final_status(error_count: usize, done: usize, total: usize) -> (r: TaskStatus)
    ensures
        error_count > 0 ==> r == TaskStatus::Failed,
        error_count == 0 && done == total ==> r == TaskStatus::Finished,
        error_count == 0 && done != total ==> r == TaskStatus::Stopped,
{
    if error_count > 0 {
        TaskStatus::Failed
    } else if done == total {
        TaskStatus::Finished
    } else {
        TaskStatus::Stopped
    }
}

/// The checkpoint due once `progress` items are done.
pub fn checkpoint_at(progress: usize) -> (r: Checkpoint)
    ensures
        r.sync_mirror == (progress % MIRROR_EVERY == 0),
        r.persist == (progress % PERSIST_EVERY == 0),
{
    Checkpoint { sync_mirror: progress % MIRROR_EVERY == 0, persist: progress % PERSIST_EVERY == 0 }
}

/// The running state of one task: its descriptor with per-item flags, its
/// done count, the errors recorded so far and whether a stop was seen.
pub struct TaskRun {
    pub groups: Vec<CurrentElement>,
    pub total: usize,
    pub progress: usize,
    pub errors: Vec<ItemError>,
    pub stopped: bool,
}

impl TaskRun {
    /// The counters agree with the descriptor: `total` is its item count and
    /// `progress` the number of its items whose flag is set.
    pub open spec fn wf(&self) -> bool {
        &&& groups_total(self.groups@) <= usize::MAX
        &&& self.total == groups_total(self.groups@)
        &&& self.progress == groups_done(self.groups@)
    }

    /// Starts a run over `groups`; items already done count toward progress
    /// at once.
    pub fn new(groups: Vec<CurrentElement>) -> (r: TaskRun)
        requires
            groups_total(groups@) <= usize::MAX,
        ensures
            r.wf(),
            r.groups@ == groups@,
            r.errors@.len() == 0,
            !r.stopped,
    {
        let total = crate::descriptor::total_count(&groups);
        let progress = crate::descriptor::done_count(&groups);
        TaskRun { groups, total, progress, errors: Vec::new(), stopped: false }
    }

    /// Accounts for the outcome of one item. A completion sets the item's
    /// flag (never clears one) and counts it once; a failure is recorded; a
    /// stop is remembered. The returned checkpoint says what to write out.
    pub fn record(&mut self, result: DownloadResult) -> (c: Option<Checkpoint>)
        requires
            old(self).wf(),
        ensures
            final(self).wf(),
            flags_grow(old(self).groups@, final(self).groups@),
            final(self).total == old(self).total,
            match result.outcome {
                ItemOutcome::Done => {
                    &&& (is_pending(old(self).groups@, ItemRef { group_index: result.group_index, index: result.index })
                        ==> {
                            &&& final(self).progress == old(self).progress + 1
                            &&& final(self).groups@[result.group_index as int].imgs@[result.index as int].done
                            &&& c == Some(Checkpoint {
                                sync_mirror: final(self).progress % MIRROR_EVERY == 0,
                                persist: final(self).progress % PERSIST_EVERY == 0,
                            })
                        })
                    &&& (!is_pending(old(self).groups@, ItemRef { group_index: result.group_index, index: result.index })
                        ==> final(self).groups@ == old(self).groups@ && c.is_none())
                    &&& final(self).errors@ == old(self).errors@
                    &&& final(self).stopped == old(self).stopped
                },
                ItemOutcome::Failed(kind) => {
                    &&& final(self).groups@ == old(self).groups@
                    &&& final(self).errors@ == old(self).errors@.push(ItemError {
                        group_index: result.group_index,
                        index: result.index,
                        kind,
                    })
                    &&& final(self).stopped == old(self).stopped
                    &&& c.is_none()
                },
                ItemOutcome::Stopped => {
                    &&& final(self).groups@ == old(self).groups@
                    &&& final(self).errors@ == old(self).errors@
                    &&& final(self).stopped
                    &&& c.is_none()
                },
            },
            forall|k: int| 0 <= k < final(self).groups@.len() && k != result.group_index ==>
                #[trigger] final(self).groups@[k] == old(self).groups@[k],
    {
        match result.outcome {
            ItemOutcome::Done => {
                let g = result.group_index;
                let i = result.index;
                if g < self.groups.len() && i < self.groups[g].imgs.len() && !self.groups[g].imgs[i].done {
                    let ghost s0 = self.groups@;
                    let ghost grp0 = self.groups@[g as int];
                    let ghost x = Img { href: grp0.imgs@[i as int].href, done: true };
                    proof {
                        lemma_imgs_done_set(grp0.imgs@, i as int, x);
                        lemma_groups_done_bounded(s0);
                        lemma_groups_set(s0, g as int, CurrentElement { imgs: grp0.imgs, ..grp0 });
                    }
                    self.groups[g].imgs[i].done = true;
                    proof {
                        assert(self.groups@[g as int].imgs@ =~= grp0.imgs@.update(i as int, x));
                        lemma_groups_set(s0, g as int, self.groups@[g as int]);
                        lemma_groups_done_bounded(self.groups@);
                        assert(flags_grow(s0, self.groups@));
                    }
                    self.progress = self.progress + 1;
                    Some(checkpoint_at(self.progress))
                } else {
                    None
                }
            },
            ItemOutcome::Failed(kind) => {
                self.errors.push(ItemError { group_index: result.group_index, index: result.index, kind });
                None
            },
            ItemOutcome::Stopped => {
                self.stopped = true;
                None
            },
        }
    }

    /// The status this run ends with.
    pub fn finish(&self) -> (r: TaskStatus)
        requires
            self.wf(),
        ensures
            self.errors@.len() > 0 ==> r == TaskStatus::Failed,
            self.errors@.len() == 0 && self.progress == self.total ==> r == TaskStatus::Finished,
            self.errors@.len() == 0 && self.progress != self.total ==> r == TaskStatus::Stopped,
    {
        final_status(self.errors.len(), self.progress, self.total)
    }
}

/// The JPEG encoding, by the `image` crate, of the RGB pixels that `payload`
/// decodes to; `None` when `payload` is not an image it can decode, or when
/// the JPEG encoder refuses the image's size.
pub uninterp spec fn jpeg_of(payload: Seq<u8>) -> Option<Seq<u8>>;

/// Relies on `image::load_from_memory`, `DynamicImage::to_rgb8` and
/// `ImageBuffer::write_to` with `ImageFormat::Jpeg`: the payload decoded and
/// written out again as JPEG.
#[verifier::external_body]
fn reencode_jpeg(payload: &[u8]) -> (r: Option<Vec<u8>>)
    ensures
        match r {
            Some(v) => jpeg_of(payload@) == Some(v@),
            None => jpeg_of(payload@).is_none(),
        },
{
    let img = image::load_from_memory(payload).ok()?;
    let mut out = std::io::Cursor::new(Vec::new());
    img.to_rgb8().write_to(&mut out, image::ImageFormat::Jpeg).ok()?;
    Some(out.into_inner())
}

/// Turns a fetched payload into the bytes to store: the canonical JPEG
/// encoding of the image it holds, or a decode error.
pub fn encode_payload(payload: &Vec<u8>) -> (r: Result<Vec<u8>, ItemErrorKind>)
    ensures
        match jpeg_of(payload@) {
            Some(v) => r matches Ok(bytes) && bytes@ == v,
            None => r == Err::<Vec<u8>, ItemErrorKind>(ItemErrorKind::Decode),
        },
{
    match reencode_jpeg(payload.as_slice()) {
        Some(v) => Ok(v),
        None => Err(ItemErrorKind::Decode),
    }
}

/// The outcome of an item whose fetch `fetched` (or not), whose payload was
/// `encoded` (or not) and whose file was `written` (or not): the first step
/// that failed decides the error.
pub fn item_outcome(fetched: bool, encoded: bool, written: bool) -> (r: ItemOutcome)
    ensures
        !fetched ==> r == ItemOutcome::Failed(ItemErrorKind::Fetch),
        fetched && !encoded ==> r == ItemOutcome::Failed(ItemErrorKind::Decode),
        fetched && encoded && !written ==> r == ItemOutcome::Failed(ItemErrorKind::Write),
        fetched && encoded && written ==> r == ItemOutcome::Done,
{
    if !fetched {
        ItemOutcome::Failed(ItemErrorKind::Fetch)
    } else if !encoded {
        ItemOutcome::Failed(ItemErrorKind::Decode)
    } else if !written {
        ItemOutcome::Failed(ItemErrorKind::Write)
    } else {
        ItemOutcome::Done
    }
}

/// Done flags only ever get set: over any sequence of recorded outcomes, a
/// flag set in the first descriptor is set in the last.
pub proof fn done_flags_stay_set(a: Seq<CurrentElement>, b: Seq<CurrentElement>, c: Seq<CurrentElement>)
    requires
        flags_grow(a, b),
        flags_grow(b, c),
    ensures
        flags_grow(a, c),
{
    assert forall|g: int| 0 <= g < a.len() implies #[trigger] c[g].imgs@.len() == a[g].imgs@.len()
        && c[g].name == a[g].name && c[g].href == a[g].href by {
        assert(b[g].imgs@.len() == a[g].imgs@.len());
        assert(c[g].imgs@.len() == b[g].imgs@.len());
    }
    assert forall|g: int, i: int| 0 <= g < a.len() && 0 <= i < a[g].imgs@.len() implies
        #[trigger] c[g].imgs@[i].href == a[g].imgs@[i].href && (a[g].imgs@[i].done ==> c[g].imgs@[i].done) by {
        assert(b[g].imgs@.len() == a[g].imgs@.len());
        assert(c[g].imgs@.len() == b[g].imgs@.len());
        assert(b[g].imgs@[i].href == a[g].imgs@[i].href);
        assert(c[g].imgs@[i].href == b[g].imgs@[i].href);
    }
}

/// Whether the end of a task with status `status` is announced to the user:
/// only a finished or failed task is.
pub fn notifies(status: TaskStatus) -> (r: bool)
    ensures
        r == (status == TaskStatus::Finished || status == TaskStatus::Failed),
{
    status == TaskStatus::Finished || status == TaskStatus::Failed
}

/// A run in which every item is done and no error was recorded ends
/// finished: its done count has reached its total.
pub proof fn all_done_finishes(run: TaskRun)
    requires
        run.wf(),
        crate::descriptor::all_imgs_done(run.groups@),
    ensures
        run.progress == run.total,
{
    crate::descriptor::done_count_is_sum_of_flags(run.groups@);
}

} // verus!
