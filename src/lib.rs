//! Download-task orchestration for a comic site: resolving listings into work
//! descriptors, keeping the task mirror, admitting tasks under a concurrency
//! bound, and accounting for per-item progress.
use vstd::prelude::*;

pub mod address;
pub mod descriptor;
pub mod ingress;
pub mod layout;
pub mod markup;
pub mod path;
pub mod resolver;
pub mod scheduler;
pub mod settings;
pub mod task;
pub mod text;
pub mod worker;

pub use address::{get_second_level_domain, get_url_query, lookup_query, second_level_of_host};
pub use descriptor::{
    AuthorElement, Category, CurrentElement, DataWrapper, HandleHtmlRes, Img, JuanHuaFanwaiCount,
    StatusCode, done_count, total_count,
};
pub use ingress::{
    IngressDecision, NewDownloadTask, categories_for, category_kind, decide_ingress, dl_type_tag,
    is_allowed_origin, parse_dl_type, plan_ingress, task_for_category, task_for_chapter,
};
pub use path::{get_dir_name, get_file_name_without_extension, is_image_file};
pub use layout::{cache_file_name, decimal_string, image_path};
pub use resolver::{
    Batch, ComicListing, ResolveStep, author_from_picks, batches, chapter_from_picks,
    comic_from_picks, fold_author_results, groups_to_resolve, is_listing_done, merge_leaf_results, parse_author_page,
    parse_chapter_page, parse_comic_page, resolve_step, sort_groups,
};
pub use scheduler::{
    GetDownloadingCount, Scheduler, StartAllData, StartDecision, status_after_restart,
};
pub use settings::{DownloadEvent, ErrorMsg, Setting, parse_count};
pub use task::{DlType, DownloadTask, PartialDownloadTask, TaskStatus};
pub use text::{extract_number_manual, join_strings, split_string};
pub use worker::{
    Checkpoint, DownloadResult, ItemError, ItemErrorKind, ItemOutcome, ItemRef, RetryStep,
    TaskRun, encode_payload, final_status, item_outcome, may_start_item, notifies, pending_items, retry_step,
};

verus! {

} // verus!
