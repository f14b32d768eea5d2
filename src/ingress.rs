//! The ingress command: validating a source address, routing it by site,
//! skipping listings already present, and shaping new tasks from a
//! resolution; plus the on-disk layout of a task's images.
use vstd::prelude::*;
use crate::address::{get_second_level_domain, host_of, second_level};
use crate::descriptor::{
    Category, CurrentElement, DataWrapper, HandleHtmlRes, StatusCode, groups_total,
};
use crate::scheduler::{Scheduler, has_kind_url};
use crate::task::DlType;
use crate::text::str_eq;

verus! {

/// Address prefix of the comic site.
pub const COMIC_SITE_PREFIX: &'static str = "https://www.antbyw.com/";

/// Address prefix of the second content source.
pub const SECOND_SOURCE_PREFIX: &'static str = "https://mangadex.org/";

pub open spec fn is_prefix(p: Seq<char>, s: Seq<char>) -> bool {
    p.len() <= s.len() && s.subrange(0, p.len() as int) == p
}

/// Whether `s` starts with `prefix`.
pub fn starts_with(s: &str, prefix: &str) -> (r: bool)
    ensures
        r == is_prefix(prefix@, s@),
{
    let n = s.unicode_len();
    let m = prefix.unicode_len();
    if m > n {
        return false;
    }
    let mut k: usize = 0;
    while k < m
        invariant
            n == s@.len(),
            m == prefix@.len(),
            m <= n,
            k <= m,
            forall|j: int| 0 <= j < k ==> s@[j] == prefix@[j],
        decreases m - k,
    {
        if s.get_char(k) != prefix.get_char(k) {
            assert(s@.subrange(0, m as int)[k as int] != prefix@[k as int]);
            return false;
        }
        k = k + 1;
    }
    assert(s@.subrange(0, m as int) =~= prefix@);
    true
}

/// The address is non-empty and belongs to one of the two allowed origins.
pub open spec fn origin_allowed(url: Seq<char>) -> bool {
    url.len() > 0 && (is_prefix(COMIC_SITE_PREFIX@, url) || is_prefix(SECOND_SOURCE_PREFIX@, url))
}

/// Whether `url` is non-empty and starts with an allowed origin.
pub fn is_allowed_origin(url: &str) -> (r: bool)
    ensures
        r == origin_allowed(url@),
{
    url.unicode_len() > 0 && (starts_with(url, COMIC_SITE_PREFIX) || starts_with(url, SECOND_SOURCE_PREFIX))
}

/// The kind a listing-kind tag names.
pub open spec fn kind_of_tag(tag: Seq<char>) -> Option<DlType> {
    if tag == "juan"@ {
        Some(DlType::Juan)
    } else if tag == "hua"@ {
        Some(DlType::Hua)
    } else if tag == "fanwai"@ {
        Some(DlType::Fanwai)
    } else if tag == "current"@ {
        Some(DlType::Current)
    } else if tag == "juan_hua_fanwai"@ {
        Some(DlType::JuanHuaFanwai)
    } else if tag == "author"@ {
        Some(DlType::Author)
    } else if tag == "local"@ {
        Some(DlType::Local)
    } else if tag == "upscale"@ {
        Some(DlType::Upscale)
    } else {
        None
    }
}

/// The tag that names `kind`.
pub open spec fn tag_of_kind(kind: DlType) -> Seq<char> {
    match kind {
        DlType::Juan => "juan"@,
        DlType::Hua => "hua"@,
        DlType::Fanwai => "fanwai"@,
        DlType::Current => "current"@,
        DlType::JuanHuaFanwai => "juan_hua_fanwai"@,
        DlType::Author => "author"@,
        DlType::Local => "local"@,
        DlType::Upscale => "upscale"@,
    }
}

/// The listing kind that `tag` names, if any.
pub fn parse_dl_type(tag: &str) -> (r: Option<DlType>)
    ensures
        r == kind_of_tag(tag@),
{
    if str_eq(tag, "juan") {
        Some(DlType::Juan)
    } else if str_eq(tag, "hua") {
        Some(DlType::Hua)
    } else if str_eq(tag, "fanwai") {
        Some(DlType::Fanwai)
    } else if str_eq(tag, "current") {
        Some(DlType::Current)
    } else if str_eq(tag, "juan_hua_fanwai") {
        Some(DlType::JuanHuaFanwai)
    } else if str_eq(tag, "author") {
        Some(DlType::Author)
    } else if str_eq(tag, "local") {
        Some(DlType::Local)
    } else if str_eq(tag, "upscale") {
        Some(DlType::Upscale)
    } else {
        None
    }
}

/// The tag that names `kind`.
pub fn dl_type_tag(kind: DlType) -> (r: &'static str)
    ensures
        r@ == tag_of_kind(kind),
{
    match kind {
        DlType::Juan => "juan",
        DlType::Hua => "hua",
        DlType::Fanwai => "fanwai",
        DlType::Current => "current",
        DlType::JuanHuaFanwai => "juan_hua_fanwai",
        DlType::Author => "author",
        DlType::Local => "local",
        DlType::Upscale => "upscale",
    }
}

/// Title of the volumes category.
pub const VOLUMES_TITLE: &'static str = "单行本";

/// Title of the chapters category.
pub const CHAPTERS_TITLE: &'static str = "单话";

/// Title of the extras category.
pub const EXTRAS_TITLE: &'static str = "番外篇";

/// The task kind of a category, by its title.
pub open spec fn kind_of_title(title: Seq<char>) -> Option<DlType> {
    if title == VOLUMES_TITLE@ {
        Some(DlType::Juan)
    } else if title == CHAPTERS_TITLE@ {
        Some(DlType::Hua)
    } else if title == EXTRAS_TITLE@ {
        Some(DlType::Fanwai)
    } else {
        None
    }
}

/// The task kind of the category titled `title`, if it is one of the three.
pub fn category_kind(title: &str) -> (r: Option<DlType>)
    ensures
        r == kind_of_title(title@),
{
    if str_eq(title, VOLUMES_TITLE) {
        Some(DlType::Juan)
    } else if str_eq(title, CHAPTERS_TITLE) {
        Some(DlType::Hua)
    } else if str_eq(title, EXTRAS_TITLE) {
        Some(DlType::Fanwai)
    } else {
        None
    }
}

/// What the ingress command does with a request.
#[derive(PartialEq, Eq, Structural, Clone, Copy, Debug)]
pub enum IngressDecision {
    /// The address is empty or not of an allowed origin.
    InvalidUrl,
    /// The address's site is neither source.
    UnknownSite,
    /// The address belongs to the second content source.
    SecondSource,
    /// The listing-kind tag names no kind.
    UnknownKind,
    /// A task of this kind for this address exists already.
    AlreadyExists,
    /// Resolve the listing of this kind.
    Resolve(DlType),
}

/// The decision for a request, given the address's second-level domain and
/// whether a task of the tag's kind for the address exists.
pub open spec fn ingress_spec(url: Seq<char>, tag: Seq<char>, site: Option<Seq<char>>, exists: bool) -> IngressDecision {
    if !origin_allowed(url) {
        IngressDecision::InvalidUrl
    } else if site == Some("mangadex"@) {
        IngressDecision::SecondSource
    } else if site != Some("antbyw"@) {
        IngressDecision::UnknownSite
    } else if kind_of_tag(tag).is_none() {
        IngressDecision::UnknownKind
    } else if exists {
        IngressDecision::AlreadyExists
    } else {
        IngressDecision::Resolve(kind_of_tag(tag).unwrap())
    }
}

/// Decides what to do with a request for `url` and listing-kind `tag`, given
/// the address's second-level domain `site` and whether a task of that kind
/// for that address exists.
pub fn decide_ingress(url: &str, tag: &str, site: &Option<String>, exists: bool) -> (r: IngressDecision)
    ensures
        r == ingress_spec(url@, tag@, match site { Some(s) => Some(s@), None => None }, exists),
{
    if !is_allowed_origin(url) {
        return IngressDecision::InvalidUrl;
    }
    let is_second = match site {
        Some(s) => str_eq(s.as_str(), "mangadex"),
        None => false,
    };
    if is_second {
        return IngressDecision::SecondSource;
    }
    let is_comic = match site {
        Some(s) => str_eq(s.as_str(), "antbyw"),
        None => false,
    };
    if !is_comic {
        return IngressDecision::UnknownSite;
    }
    match parse_dl_type(tag) {
        None => IngressDecision::UnknownKind,
        Some(kind) => if exists {
            IngressDecision::AlreadyExists
        } else {
            IngressDecision::Resolve(kind)
        },
    }
}

/// Decides what to do with a request for `url` and listing-kind `tag`
/// against the tasks of `sched`.
pub fn plan_ingress(sched: &Scheduler, url: &String, tag: &str) -> (r: IngressDecision)
    ensures
        r == ingress_spec(
            url@,
            tag@,
            match host_of(url@) {
                Some(h) => second_level(h),
                None => None,
            },
            kind_of_tag(tag@).is_some() && has_kind_url(sched.tasks@, kind_of_tag(tag@).unwrap(), url@),
        ),
{
    let site = get_second_level_domain(url.as_str());
    let exists = match parse_dl_type(tag) {
        Some(kind) => sched.has_task(kind, url),
        None => false,
    };
    decide_ingress(url.as_str(), tag, &site, exists)
}

/// A task to create: everything the store needs but its id and status.
#[derive(Debug)]
pub struct NewDownloadTask {
    pub dl_type: DlType,
    pub local_path: String,
    pub groups: Vec<CurrentElement>,
    pub url: String,
    pub author: String,
    pub comic_name: String,
    pub count: usize,
}

/// Whether a category titled `title` becomes a task for a request of `kind`:
/// the category of that kind, or every known category for a whole comic.
pub open spec fn category_selected(kind: DlType, title: Seq<char>) -> bool {
    if kind == DlType::JuanHuaFanwai {
        kind_of_title(title).is_some()
    } else {
        kind_of_title(title) == Some(kind)
    }
}

/// Positions, in order, of the categories of `cats` that a request of `kind`
/// turns into tasks.
pub fn categories_for(kind: DlType, cats: &Vec<Category>) -> (r: Vec<usize>)
    ensures
        forall|k: int| 0 <= k < r@.len() ==> (#[trigger] r@[k]) < cats@.len() && category_selected(kind, cats@[r@[k] as int].title@),
        forall|k: int, l: int| 0 <= k < l < r@.len() ==> #[trigger] r@[k] < #[trigger] r@[l],
        forall|i: int| 0 <= i < cats@.len() && category_selected(kind, (#[trigger] cats@[i]).title@) ==> r@.contains(i as usize),
{
    let mut r: Vec<usize> = Vec::new();
    let mut i: usize = 0;
    while i < cats.len()
        invariant
            i <= cats@.len(),
            forall|k: int| 0 <= k < r@.len() ==> (#[trigger] r@[k]) < i && category_selected(kind, cats@[r@[k] as int].title@),
            forall|k: int, l: int| 0 <= k < l < r@.len() ==> #[trigger] r@[k] < #[trigger] r@[l],
            forall|j: int| 0 <= j < i && category_selected(kind, (#[trigger] cats@[j]).title@) ==> r@.contains(j as usize),
        decreases cats@.len() - i,
    {
        let ck = category_kind(cats[i].title.as_str());
        let selected = match ck {
            Some(c) => kind == DlType::JuanHuaFanwai || c == kind,
            None => false,
        };
        if selected {
            let ghost before = r@;
            r.push(i);
            proof {
                assert forall|j: int| 0 <= j < i + 1 && category_selected(kind, (#[trigger] cats@[j]).title@) implies r@.contains(j as usize) by {
                    if j == i {
                        assert(r@[r@.len() - 1] == i);
                    } else {
                        let k = choose|k: int| 0 <= k < before.len() && before[k] == j as usize;
                        assert(r@[k] == j as usize);
                    }
                }
            }
        }
        i = i + 1;
    }
    r
}

/// The groups of a new task: those of the listing, with every group flag
/// cleared and images as resolved.
fn fresh_groups(groups: &Vec<CurrentElement>) -> (r: Vec<CurrentElement>)
    ensures
        r@.len() == groups@.len(),
        forall|i: int| 0 <= i < r@.len() ==> {
            &&& (#[trigger] r@[i]).name == groups@[i].name
            &&& r@[i].href == groups@[i].href
            &&& r@[i].imgs@ == groups@[i].imgs@
            &&& r@[i].count == groups@[i].count
            &&& !r@[i].done
        },
        groups_total(r@) == groups_total(groups@),
{
    let mut r: Vec<CurrentElement> = Vec::new();
    let mut i: usize = 0;
    while i < groups.len()
        invariant
            i <= groups@.len(),
            r@.len() == i,
            forall|j: int| 0 <= j < i ==> {
                &&& (#[trigger] r@[j]).name == groups@[j].name
                &&& r@[j].href == groups@[j].href
                &&& r@[j].imgs@ == groups@[j].imgs@
                &&& r@[j].count == groups@[j].count
                &&& !r@[j].done
            },
            groups_total(r@) == groups_total(groups@.subrange(0, i as int)),
        decreases groups@.len() - i,
    {
        let mut g = groups[i].copy();
        g.done = false;
        let ghost before = r@;
        r.push(g);
        proof {
            assert(r@.drop_last() =~= before);
            assert(groups@.subrange(0, i + 1).drop_last() =~= groups@.subrange(0, i as int));
        }
        i = i + 1;
    }
    assert(groups@.subrange(0, i as int) =~= groups@);
    r
}

/// The task for category `cat` of a resolved comic listing `res` of `url`:
/// its kind is the category's, its count the number of images (in a done
/// listing, every group holds as many images as it advertises). `None` unless
/// the listing succeeded and is done.
pub fn task_for_category(url: &String, res: &HandleHtmlRes, cat: &Category) -> (r: Option<NewDownloadTask>)
    ensures
        r.is_some() == (res.code == StatusCode::Success && res.done && kind_of_title(cat.title@).is_some()
            && groups_total(cat.groups@) <= usize::MAX),
        r.is_some() ==> {
            let t = r.unwrap();
            &&& t.dl_type == kind_of_title(cat.title@).unwrap()
            &&& t.url == *url
            &&& t.local_path == res.local
            &&& t.author == res.author
            &&& t.comic_name == res.comic_name
            &&& t.count == groups_total(cat.groups@)
            &&& t.groups@.len() == cat.groups@.len()
            &&& forall|i: int| 0 <= i < t.groups@.len() ==> {
                &&& (#[trigger] t.groups@[i]).name == cat.groups@[i].name
                &&& t.groups@[i].href == cat.groups@[i].href
                &&& t.groups@[i].imgs@ == cat.groups@[i].imgs@
                &&& !t.groups@[i].done
            }
        },
{
    if res.code != StatusCode::Success || !res.done {
        return None;
    }
    let kind = match category_kind(cat.title.as_str()) {
        Some(k) => k,
        None => {
            return None;
        },
    };
    let total = crate::descriptor::checked_total_count(&cat.groups);
    match total {
        None => None,
        Some(count) => Some(NewDownloadTask {
            dl_type: kind,
            local_path: res.local.clone(),
            groups: fresh_groups(&cat.groups),
            url: url.clone(),
            author: res.author.clone(),
            comic_name: res.comic_name.clone(),
            count,
        }),
    }
}

/// The task for a resolved single chapter `res` of `url`: one group named
/// after the chapter, holding its images; the task is named
/// "<comic>_<chapter>". `None` unless the resolution succeeded and is done.
pub fn task_for_chapter(url: &String, res: &HandleHtmlRes) -> (r: Option<NewDownloadTask>)
    ensures
        r.is_some() == (res.code == StatusCode::Success && res.done && res.data is VecData),
        r.is_some() ==> {
            let t = r.unwrap();
            &&& t.dl_type == DlType::Current
            &&& t.url == *url
            &&& t.local_path == res.local
            &&& t.author == res.author
            &&& t.comic_name@ == res.comic_name@ + "_"@ + res.current_name@
            &&& t.groups@.len() == 1
            &&& t.groups@[0].name == res.current_name
            &&& t.groups@[0].href == *url
            &&& !t.groups@[0].done
            &&& res.data matches DataWrapper::VecData(v) && t.groups@[0].imgs@ == v@ && t.count == v@.len()
        },
{
    if res.code != StatusCode::Success || !res.done {
        return None;
    }
    match &res.data {
        DataWrapper::VecData(v) => {
            let imgs = crate::descriptor::copy_imgs(v);
            let count = imgs.len();
            let group = CurrentElement {
                name: res.current_name.clone(),
                href: url.clone(),
                imgs,
                count,
                done: false,
            };
            let mut groups: Vec<CurrentElement> = Vec::new();
            groups.push(group);
            let mut name = res.comic_name.clone();
            name.append("_");
            name.append(res.current_name.as_str());
            Some(NewDownloadTask {
                dl_type: DlType::Current,
                local_path: res.local.clone(),
                groups,
                url: url.clone(),
                author: res.author.clone(),
                comic_name: name,
                count,
            })
        },
        _ => None,
    }
}

} // verus!
