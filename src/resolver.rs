//! Resolution of source pages into work descriptors: reading chapter,
//! comic and author pages, ordering groups, and resuming partial work.
use vstd::prelude::*;
use vstd::multiset::Multiset;
use crate::descriptor::{
    AuthorElement, Category, CurrentElement, DataWrapper, HandleHtmlRes, Img, StatusCode,
};
use crate::markup::{blocks_of, picked_of, select_blocks, select_picked};
use crate::text::{extract_number_manual, leading_number};

verus! {

/// Origin that relative links of the source site resolve against.
pub const SITE_ROOT: &'static str = "https://www.antbyw.com";

/// Breadcrumb links of a chapter page; the last one names the comic.
pub const CRUMB_LINKS: &'static str = ".uk-breadcrumb.pl0 a";

/// Breadcrumb labels of a chapter page; the last one names the chapter.
pub const CRUMB_LABELS: &'static str = ".uk-breadcrumb.pl0 span";

/// Badge of a chapter page that advertises its image count.
pub const COUNT_BADGE: &'static str = ".uk-badge.ml8";

/// Images of a chapter page.
pub const CHAPTER_IMAGES: &'static str = ".uk-zjimg img";

/// Attribute of a chapter image that holds its address.
pub const IMAGE_SOURCE: &'static str = "data-src";

/// Attribute of a link that holds its target.
pub const LINK_TARGET: &'static str = "href";

/// Heading of a comic page that names the comic.
pub const COMIC_TITLE: &'static str = ".uk-heading-line.mt10.m10.mbn";

/// Category headings of a comic page.
pub const CATEGORY_TITLES: &'static str = "h3.uk-alert-warning";

/// Category blocks of a comic page, one per heading.
pub const CATEGORY_BLOCKS: &'static str = ".uk-container .uk-switcher.uk-margin";

/// Group links inside a category block.
pub const GROUP_LINKS: &'static str = "a.zj-container";

/// Comic links of an author page.
pub const AUTHOR_COMIC_LINKS: &'static str = ".uk-card-media-top.uk-inline a";

/// Comic names of an author page.
pub const AUTHOR_COMIC_NAMES: &'static str = ".uk-card.uk-text-center .mt5.mb5.uk-text-truncate a";

pub type Picks = Seq<(Seq<char>, Option<Seq<char>>)>;

/// Inner markup of the last pick, if any.
pub open spec fn last_text(p: Option<Picks>) -> Option<Seq<char>> {
    match p {
        Some(v) => if v.len() > 0 { Some(v.last().0) } else { None },
        None => None,
    }
}

/// Inner markup of the first pick, if any.
pub open spec fn first_text(p: Option<Picks>) -> Option<Seq<char>> {
    match p {
        Some(v) => if v.len() > 0 { Some(v[0].0) } else { None },
        None => None,
    }
}

/// Every pick carries the attribute.
pub open spec fn all_attrs(v: Picks) -> bool {
    forall|i: int| 0 <= i < v.len() ==> (#[trigger] v[i]).1.is_some()
}

/// Every pick carries a non-empty attribute.
pub open spec fn all_links(v: Picks) -> bool {
    forall|i: int| 0 <= i < v.len() ==> (#[trigger] v[i]).1.is_some() && v[i].1.unwrap().len() > 0
}

/// The absolute address of a site-relative link such as "./plugin.php?..":
/// its first character is replaced by the site's origin.
pub open spec fn absolute(root: Seq<char>, link: Seq<char>) -> Seq<char> {
    root + link.drop_first()
}

/// The fields that a chapter page must show for its leaf resolution to go
/// through: the comic's name (last breadcrumb link), the chapter's name (last
/// breadcrumb label), the count badge, and an address on every image.
pub open spec fn chapter_readable(crumbs: Option<Picks>, labels: Option<Picks>, badge: Option<Picks>, images: Option<Picks>) -> bool {
    &&& last_text(crumbs).is_some()
    &&& last_text(labels).is_some()
    &&& first_text(badge).is_some()
    &&& images.is_some()
    &&& all_attrs(images.unwrap())
}

/// What leaf resolution makes of the picks of a chapter page.
pub open spec fn chapter_result(r: HandleHtmlRes, crumbs: Option<Picks>, labels: Option<Picks>, badge: Option<Picks>, images: Option<Picks>) -> bool {
    &&& (r.code == StatusCode::Success) == chapter_readable(crumbs, labels, badge, images)
    &&& r.code != StatusCode::Success ==> !r.done
    &&& r.code == StatusCode::Success ==> {
        let imgs = images.unwrap();
        &&& r.comic_name@ == last_text(crumbs).unwrap()
        &&& r.current_name@ == last_text(labels).unwrap()
        &&& r.current_count == leading_number(first_text(badge).unwrap())
        &&& r.data matches DataWrapper::VecData(v) && v@.len() == imgs.len()
            && (forall|i: int| 0 <= i < v@.len() ==> !(#[trigger] v@[i]).done && Some(v@[i].href@) == imgs[i].1)
            && r.done == (v@.len() == r.current_count)
    }
}

pub open spec fn opt_picks(v: Option<Vec<(String, Option<String>)>>) -> Option<Picks> {
    match v {
        Some(x) => Some(crate::markup::picked_views(x@)),
        None => None,
    }
}

/// Last pick's inner markup, when `v` is not empty.
fn last_pick(v: &Option<Vec<(String, Option<String>)>>) -> (r: Option<String>)
    ensures
        match v {
            Some(x) => if x@.len() > 0 { r == Some(x@.last().0) } else { r.is_none() },
            None => r.is_none(),
        },
{
    match v {
        Some(x) => if x.len() > 0 { Some(x[x.len() - 1].0.clone()) } else { None },
        None => None,
    }
}

/// First pick's inner markup, when `v` is not empty.
fn first_pick(v: &Option<Vec<(String, Option<String>)>>) -> (r: Option<String>)
    ensures
        match v {
            Some(x) => if x@.len() > 0 { r == Some(x@[0].0) } else { r.is_none() },
            None => r.is_none(),
        },
{
    match v {
        Some(x) => if x.len() > 0 { Some(x[0].0.clone()) } else { None },
        None => None,
    }
}

/// The images of a chapter, when every pick carries its address; none done.
fn images_of(v: &Vec<(String, Option<String>)>) -> (r: Option<Vec<Img>>)
    ensures
        r.is_some() == all_attrs(crate::markup::picked_views(v@)),
        r.is_some() ==> {
            let imgs = r.unwrap()@;
            &&& imgs.len() == v@.len()
            &&& forall|i: int| 0 <= i < imgs.len() ==> !(#[trigger] imgs[i]).done
                && Some(imgs[i].href@) == crate::markup::opt_view(v@[i].1)
        },
{
    let ghost pv = crate::markup::picked_views(v@);
    let mut imgs: Vec<Img> = Vec::new();
    let mut i: usize = 0;
    while i < v.len()
        invariant
            i <= v@.len(),
            pv == crate::markup::picked_views(v@),
            imgs@.len() == i,
            forall|j: int| 0 <= j < i ==> (#[trigger] pv[j]).1.is_some(),
            forall|j: int| 0 <= j < i ==> !(#[trigger] imgs@[j]).done
                && Some(imgs@[j].href@) == crate::markup::opt_view(v@[j].1),
        decreases v@.len() - i,
    {
        match &v[i].1 {
            Some(src) => {
                imgs.push(Img { href: src.clone(), done: false });
            },
            None => {
                assert(!pv[i as int].1.is_some());
                return None;
            },
        }
        i = i + 1;
    }
    Some(imgs)
}

/// Leaf resolution from the picks of a chapter page: the comic's and the
/// chapter's names, the advertised image count and the image addresses in
/// page order. It succeeds when the page shows all of them; the result is done
/// exactly when the number of images found equals the advertised count.
pub fn chapter_from_picks(
    crumbs: &Option<Vec<(String, Option<String>)>>,
    labels: &Option<Vec<(String, Option<String>)>>,
    badge: &Option<Vec<(String, Option<String>)>>,
    images: &Option<Vec<(String, Option<String>)>>,
) -> (r: HandleHtmlRes)
    ensures
        chapter_result(r, opt_picks(*crumbs), opt_picks(*labels), opt_picks(*badge), opt_picks(*images)),
{
    let comic_name = last_pick(crumbs);
    let current_name = last_pick(labels);
    let count_text = first_pick(badge);
    if comic_name.is_none() || current_name.is_none() || count_text.is_none() || images.is_none() {
        return HandleHtmlRes::failed(String::new(), DataWrapper::VecData(Vec::new()));
    }
    let comic_name = comic_name.unwrap();
    let current_name = current_name.unwrap();
    let count_text = count_text.unwrap();
    let found = images.as_ref().unwrap();
    match images_of(found) {
        None => HandleHtmlRes::failed(String::new(), DataWrapper::VecData(Vec::new())),
        Some(imgs) => {
            let count = extract_number_manual(count_text.as_str()).unwrap();
            let done = imgs.len() == count as usize;
            HandleHtmlRes {
                code: StatusCode::Success,
                data: DataWrapper::VecData(imgs),
                local: String::new(),
                msg: String::new(),
                author: String::new(),
                comic_name,
                current_name,
                current_count: count,
                done,
            }
        },
    }
}

/// Leaf resolution of the chapter page `html` (see `chapter_from_picks`).
pub fn parse_chapter_page(html: &str) -> (r: HandleHtmlRes)
    ensures
        chapter_result(
            r,
            picked_of(html@, CRUMB_LINKS@, LINK_TARGET@),
            picked_of(html@, CRUMB_LABELS@, LINK_TARGET@),
            picked_of(html@, COUNT_BADGE@, LINK_TARGET@),
            picked_of(html@, CHAPTER_IMAGES@, IMAGE_SOURCE@),
        ),
{
    let crumbs = select_picked(html, CRUMB_LINKS, LINK_TARGET);
    let labels = select_picked(html, CRUMB_LABELS, LINK_TARGET);
    let badge = select_picked(html, COUNT_BADGE, LINK_TARGET);
    let found = select_picked(html, CHAPTER_IMAGES, IMAGE_SOURCE);
    chapter_from_picks(&crumbs, &labels, &badge, &found)
}

/// The fields of a group, as views.
pub open spec fn gview(g: CurrentElement) -> (Seq<char>, Seq<char>, Seq<Img>, usize, bool) {
    (g.name@, g.href@, g.imgs@, g.count, g.done)
}

pub open spec fn gviews(s: Seq<CurrentElement>) -> Seq<(Seq<char>, Seq<char>, Seq<Img>, usize, bool)> {
    s.map_values(|g: CurrentElement| gview(g))
}

/// Sort key of a group: the number its name starts with (0 when none).
pub open spec fn group_key(g: CurrentElement) -> u32 {
    leading_number(g.name@)
}

pub open spec fn sorted_by_key(s: Seq<CurrentElement>) -> bool {
    forall|i: int, j: int| 0 <= i < j < s.len() ==> group_key(#[trigger] s[i]) <= group_key(#[trigger] s[j])
}

pub type GView = (Seq<char>, Seq<char>, Seq<Img>, usize, bool);

/// Sort key of a group's view: the number its name starts with.
pub open spec fn vkey(v: GView) -> u32 {
    leading_number(v.0)
}

/// `p` places `s` into `r`: `r[i]` is `s[p[i]]`, every position of `s` is
/// used once, and `r` is in key order with equal keys in the order of `s`.
pub open spec fn stable_witness(r: Seq<GView>, s: Seq<GView>, p: Seq<int>) -> bool {
    &&& r.len() == s.len()
    &&& p.len() == r.len()
    &&& forall|i: int| 0 <= i < p.len() ==> 0 <= #[trigger] p[i] < s.len() && r[i] == s[p[i]]
    &&& forall|i: int, j: int| 0 <= i < j < p.len() ==> #[trigger] p[i] != #[trigger] p[j]
        && (vkey(r[i]) < vkey(r[j]) || (vkey(r[i]) == vkey(r[j]) && p[i] < p[j]))
}

/// `r` is `s` sorted by key, stably: groups with equal keys keep their order.
pub open spec fn is_stable_sort(r: Seq<GView>, s: Seq<GView>) -> bool {
    exists|p: Seq<int>| stable_witness(r, s, p)
}

/// Orders `groups` by the number that leads each display name (0 when there
/// is none), so that chapter order does not depend on markup order; groups
/// with equal numbers keep their page order.
pub fn sort_groups(groups: Vec<CurrentElement>) -> (r: Vec<CurrentElement>)
    ensures
        sorted_by_key(r@),
        is_stable_sort(gviews(r@), gviews(groups@)),
        gviews(r@).to_multiset() == gviews(groups@).to_multiset(),
        r@.len() == groups@.len(),
{
    broadcast use vstd::seq_lib::group_to_multiset_ensures;
    let ghost orig = gviews(groups@);
    let mut rest = groups;
    let mut keys: Vec<u32> = Vec::new();
    let mut i: usize = 0;
    while i < rest.len()
        invariant
            i <= rest@.len(),
            keys@.len() == i,
            forall|j: int| 0 <= j < i ==> #[trigger] keys@[j] == group_key(rest@[j]),
        decreases rest@.len() - i,
    {
        keys.push(extract_number_manual(rest[i].name.as_str()).unwrap());
        i = i + 1;
    }
    let mut out: Vec<CurrentElement> = Vec::new();
    let ghost mut po: Seq<int> = Seq::empty();
    let ghost mut pr: Seq<int> = Seq::new(orig.len(), |k: int| k);
    while rest.len() > 0
        invariant
            keys@.len() == rest@.len(),
            forall|j: int| 0 <= j < keys@.len() ==> #[trigger] keys@[j] == group_key(rest@[j]),
            sorted_by_key(out@),
            forall|a: int, b: int| 0 <= a < out@.len() && 0 <= b < rest@.len() ==> group_key(#[trigger] out@[a]) <= group_key(#[trigger] rest@[b]),
            gviews(out@).to_multiset().add(gviews(rest@).to_multiset()) == orig.to_multiset(),
            out@.len() + rest@.len() == orig.len(),
            po.len() == out@.len(),
            pr.len() == rest@.len(),
            forall|a: int| 0 <= a < po.len() ==> 0 <= #[trigger] po[a] < orig.len() && gview(out@[a]) == orig[po[a]],
            forall|b: int| 0 <= b < pr.len() ==> 0 <= #[trigger] pr[b] < orig.len() && gview(rest@[b]) == orig[pr[b]],
            forall|b: int, c: int| 0 <= b < c < pr.len() ==> #[trigger] pr[b] < #[trigger] pr[c],
            forall|a: int, b: int| 0 <= a < po.len() && 0 <= b < pr.len() ==> #[trigger] po[a] != #[trigger] pr[b]
                && (group_key(out@[a]) < group_key(rest@[b]) || (group_key(out@[a]) == group_key(rest@[b]) && po[a] < pr[b])),
            forall|a: int, c: int| 0 <= a < c < po.len() ==> #[trigger] po[a] != #[trigger] po[c]
                && (group_key(out@[a]) < group_key(out@[c]) || (group_key(out@[a]) == group_key(out@[c]) && po[a] < po[c])),
        decreases rest@.len(),
    {
        let mut m: usize = 0;
        let mut j: usize = 1;
        while j < keys.len()
            invariant
                keys@.len() == rest@.len(),
                0 < keys@.len(),
                m < j <= keys@.len(),
                forall|k: int| 0 <= k < j ==> keys@[m as int] <= #[trigger] keys@[k],
                forall|k: int| 0 <= k < m ==> keys@[m as int] < #[trigger] keys@[k],
            decreases keys@.len() - j,
        {
            if keys[j] < keys[m] {
                m = j;
            }
            j = j + 1;
        }
        let ghost r0 = rest@;
        let ghost o0 = out@;
        let ghost k0 = keys@;
        let ghost po0 = po;
        let ghost pr0 = pr;
        let g = rest.remove(m);
        keys.remove(m);
        out.push(g);
        proof {
            po = po0.push(pr0[m as int]);
            pr = pr0.remove(m as int);
            assert(gviews(rest@) =~= gviews(r0).remove(m as int));
            assert(gviews(out@) =~= gviews(o0).push(gview(g)));
            assert(gviews(r0)[m as int] == gview(g));
            let x = gview(g);
            gviews(o0).to_multiset_ensures();
            gviews(r0).to_multiset_ensures();
            assert(gviews(o0).push(x).to_multiset() == gviews(o0).to_multiset().insert(x));
            assert(gviews(r0).remove(m as int).to_multiset() == gviews(r0).to_multiset().remove(x));
            assert(gviews(r0).contains(x));
            assert(gviews(r0).to_multiset().count(x) > 0);
            assert(gviews(out@).to_multiset().add(gviews(rest@).to_multiset()) =~= gviews(o0).to_multiset().add(gviews(r0).to_multiset()));
            assert forall|a: int, b: int| 0 <= a < out@.len() && 0 <= b < rest@.len() implies group_key(#[trigger] out@[a]) <= group_key(#[trigger] rest@[b]) by {
                let b0 = if b < m { b } else { b + 1 };
                assert(rest@[b] == r0[b0]);
                assert(k0[m as int] <= k0[b0]);
                assert(k0[b0] == group_key(r0[b0]));
            }
            assert forall|a: int, b: int| 0 <= a < b < out@.len() implies group_key(#[trigger] out@[a]) <= group_key(#[trigger] out@[b]) by {
                if b == out@.len() - 1 {
                    assert(out@[b] == r0[m as int]);
                    assert(out@[a] == o0[a]);
                }
            }
            assert forall|j: int| 0 <= j < keys@.len() implies #[trigger] keys@[j] == group_key(rest@[j]) by {
                let j0 = if j < m { j } else { j + 1 };
                assert(keys@[j] == k0[j0]);
                assert(rest@[j] == r0[j0]);
            }
            assert forall|a: int| 0 <= a < po.len() implies 0 <= #[trigger] po[a] < orig.len() && gview(out@[a]) == orig[po[a]] by {
                if a < po0.len() {
                    assert(out@[a] == o0[a]);
                } else {
                    assert(out@[a] == r0[m as int]);
                }
            }
            assert forall|b: int| 0 <= b < pr.len() implies 0 <= #[trigger] pr[b] < orig.len() && gview(rest@[b]) == orig[pr[b]] by {
                let b0 = if b < m { b } else { b + 1 };
                assert(rest@[b] == r0[b0]);
                assert(pr[b] == pr0[b0]);
            }
            assert forall|b: int, c: int| 0 <= b < c < pr.len() implies #[trigger] pr[b] < #[trigger] pr[c] by {
                let b0 = if b < m { b } else { b + 1 };
                let c0 = if c < m { c } else { c + 1 };
                assert(pr[b] == pr0[b0]);
                assert(pr[c] == pr0[c0]);
            }
            assert forall|a: int, b: int| 0 <= a < po.len() && 0 <= b < pr.len() implies #[trigger] po[a] != #[trigger] pr[b]
                && (group_key(out@[a]) < group_key(rest@[b]) || (group_key(out@[a]) == group_key(rest@[b]) && po[a] < pr[b])) by {
                let b0 = if b < m { b } else { b + 1 };
                assert(rest@[b] == r0[b0]);
                assert(pr[b] == pr0[b0]);
                assert(k0[b0] == group_key(r0[b0]));
                assert(k0[m as int] == group_key(r0[m as int]));
                if a < po0.len() {
                    assert(out@[a] == o0[a]);
                    assert(po[a] == po0[a]);
                } else {
                    assert(out@[a] == r0[m as int]);
                    assert(po[a] == pr0[m as int]);
                    if b0 < m {
                        assert(k0[m as int] < k0[b0]);
                    } else {
                        assert(pr0[m as int] < pr0[b0]);
                    }
                }
            }
            assert forall|a: int, c: int| 0 <= a < c < po.len() implies #[trigger] po[a] != #[trigger] po[c]
                && (group_key(out@[a]) < group_key(out@[c]) || (group_key(out@[a]) == group_key(out@[c]) && po[a] < po[c])) by {
                assert(out@[a] == o0[a]);
                assert(po[a] == po0[a]);
                if c == po.len() - 1 {
                    assert(out@[c] == r0[m as int]);
                    assert(po[c] == pr0[m as int]);
                } else {
                    assert(out@[c] == o0[c]);
                    assert(po[c] == po0[c]);
                }
            }
        }
    }
    proof {
        assert(gviews(rest@).to_multiset() =~= Multiset::empty());
        assert(gviews(out@).to_multiset().add(Multiset::empty()) =~= gviews(out@).to_multiset());
        let rv = gviews(out@);
        assert forall|i: int| 0 <= i < po.len() implies 0 <= #[trigger] po[i] < orig.len() && rv[i] == orig[po[i]] by {}
        assert forall|i: int, j: int| 0 <= i < j < po.len() implies #[trigger] po[i] != #[trigger] po[j]
            && (vkey(rv[i]) < vkey(rv[j]) || (vkey(rv[i]) == vkey(rv[j]) && po[i] < po[j])) by {
            assert(rv[i] == gview(out@[i]));
            assert(rv[j] == gview(out@[j]));
        }
        assert(stable_witness(rv, orig, po));
    }
    out
}

/// A group that a link of a category block stands for, as views: its text
/// names it, its target made absolute locates it; no image is known yet.
pub open spec fn link_view(p: (Seq<char>, Option<Seq<char>>)) -> (Seq<char>, Seq<char>, Seq<Img>, usize, bool) {
    (p.0, absolute(SITE_ROOT@, p.1.unwrap()), Seq::empty(), 0usize, false)
}

/// The site-relative `link` made absolute.
fn absolute_link(link: &str) -> (r: String)
    requires
        link@.len() > 0,
    ensures
        r@ == absolute(SITE_ROOT@, link@),
{
    let n = link.unicode_len();
    let tail = link.substring_char(1, n);
    let mut r = SITE_ROOT.to_owned();
    r.append(tail);
    proof {
        assert(tail@ =~= link@.drop_first());
    }
    r
}

/// The groups that the links of a category block stand for, in markup
/// order, when every link has a non-empty target.
fn groups_from_links(v: &Vec<(String, Option<String>)>) -> (r: Option<Vec<CurrentElement>>)
    ensures
        r.is_some() == all_links(crate::markup::picked_views(v@)),
        r.is_some() ==> gviews(r.unwrap()@) == crate::markup::picked_views(v@).map_values(|p: (Seq<char>, Option<Seq<char>>)| link_view(p)),
{
    let ghost pv = crate::markup::picked_views(v@);
    let mut out: Vec<CurrentElement> = Vec::new();
    let mut i: usize = 0;
    while i < v.len()
        invariant
            i <= v@.len(),
            pv == crate::markup::picked_views(v@),
            out@.len() == i,
            forall|j: int| 0 <= j < i ==> (#[trigger] pv[j]).1.is_some() && pv[j].1.unwrap().len() > 0,
            forall|j: int| 0 <= j < i ==> #[trigger] gview(out@[j]) == link_view(pv[j]),
        decreases v@.len() - i,
    {
        match &v[i].1 {
            Some(target) => {
                if target.as_str().unicode_len() == 0 {
                    assert(pv[i as int].1 == Some(target@));
                    assert(!(pv[i as int].1.is_some() && pv[i as int].1.unwrap().len() > 0));
                    return None;
                }
                let href = absolute_link(target.as_str());
                out.push(CurrentElement { name: v[i].0.clone(), href, imgs: Vec::new(), count: 0, done: false });
                proof {
                    assert(out@[i as int].imgs@ =~= Seq::<Img>::empty());
                }
            },
            None => {
                assert(pv[i as int].1.is_none());
                return None;
            },
        }
        i = i + 1;
    }
    proof {
        assert(gviews(out@) =~= pv.map_values(|p: (Seq<char>, Option<Seq<char>>)| link_view(p)));
    }
    Some(out)
}

/// A comic listing: the comic's name and its categories of groups.
#[derive(Debug)]
pub struct ComicListing {
    pub comic_name: String,
    pub categories: Vec<Category>,
}

pub open spec fn min(a: int, b: int) -> int {
    if a < b { a } else { b }
}

/// A comic page can be read: it names the comic, and every group link of
/// every category block has a target.
pub open spec fn comic_readable(title: Option<Picks>, headings: Option<Picks>, blocks: Option<Seq<Picks>>) -> bool {
    &&& first_text(title).is_some()
    &&& headings.is_some()
    &&& blocks.is_some()
    &&& forall|k: int| 0 <= k < blocks.unwrap().len() ==> all_links(#[trigger] blocks.unwrap()[k])
}

/// What reading a comic page makes of its picks: the comic's name, and one
/// category per heading and block, in page order (as many as the fewer of
/// the two), titled by the heading, with the groups of the block ordered by
/// their leading number.
pub open spec fn comic_result(r: Option<ComicListing>, title: Option<Picks>, headings: Option<Picks>, blocks: Option<Seq<Picks>>) -> bool {
    &&& r.is_some() == comic_readable(title, headings, blocks)
    &&& r.is_some() ==> {
        let c = r.unwrap();
        let h = headings.unwrap();
        let b = blocks.unwrap();
        let n = min(h.len() as int, b.len() as int);
        let ks = kept_headings(h, n, n);
        &&& c.comic_name@ == first_text(title).unwrap()
        &&& c.categories@.len() == ks.len()
        &&& forall|k: int| 0 <= k < c.categories@.len() ==> {
            &&& (#[trigger] c.categories@[k]).title@ == h[ks[k]].0
            &&& sorted_by_key(c.categories@[k].groups@)
            &&& is_stable_sort(gviews(c.categories@[k].groups@),
                b[ks[k]].map_values(|p: (Seq<char>, Option<Seq<char>>)| link_view(p)))
        }
        &&& forall|i: int, j: int| 0 <= i < j < c.categories@.len() ==>
            (#[trigger] c.categories@[i]).title@ != (#[trigger] c.categories@[j]).title@
    }
}

/// No heading among the first `n` after position `k` has the title of
/// heading `k`: a later category of the same title replaces an earlier one.
pub open spec fn last_of_title(h: Picks, n: int, k: int) -> bool {
    forall|j: int| k < j < n ==> (#[trigger] h[j]).0 != h[k].0
}

/// Positions below `k`, in order, of the headings among the first `n` that
/// no later one of the same title replaces.
pub open spec fn kept_headings(h: Picks, n: int, k: int) -> Seq<int>
    decreases k,
{
    if k <= 0 {
        Seq::empty()
    } else if last_of_title(h, n, k - 1) {
        kept_headings(h, n, k - 1).push(k - 1)
    } else {
        kept_headings(h, n, k - 1)
    }
}

pub proof fn lemma_kept_headings(h: Picks, n: int, k: int)
    requires
        0 <= k,
    ensures
        forall|i: int| 0 <= i < kept_headings(h, n, k).len() ==> 0 <= #[trigger] kept_headings(h, n, k)[i] < k
            && last_of_title(h, n, kept_headings(h, n, k)[i]),
        forall|i: int, j: int| 0 <= i < j < kept_headings(h, n, k).len() ==>
            #[trigger] kept_headings(h, n, k)[i] < #[trigger] kept_headings(h, n, k)[j],
    decreases k,
{
    if k > 0 {
        lemma_kept_headings(h, n, k - 1);
        let p = kept_headings(h, n, k - 1);
        let q = kept_headings(h, n, k);
        if last_of_title(h, n, k - 1) {
            assert(q == p.push(k - 1));
            assert forall|i: int| 0 <= i < q.len() implies 0 <= #[trigger] q[i] < k && last_of_title(h, n, q[i]) by {
                if i < p.len() {
                    assert(q[i] == p[i]);
                }
            }
            assert forall|i: int, j: int| 0 <= i < j < q.len() implies #[trigger] q[i] < #[trigger] q[j] by {
                assert(q[i] == p[i]);
                if j < p.len() {
                    assert(q[j] == p[j]);
                }
            }
        } else {
            assert(q == p);
        }
    }
}

pub open spec fn opt_blocks(v: Option<Vec<Vec<(String, Option<String>)>>>) -> Option<Seq<Picks>> {
    match v {
        Some(x) => Some(crate::markup::block_views(x@)),
        None => None,
    }
}

/// Reads a comic listing from the picks of its page.
pub fn comic_from_picks(
    title: &Option<Vec<(String, Option<String>)>>,
    headings: &Option<Vec<(String, Option<String>)>>,
    blocks: &Option<Vec<Vec<(String, Option<String>)>>>,
) -> (r: Option<ComicListing>)
    ensures
        comic_result(r, opt_picks(*title), opt_picks(*headings), opt_blocks(*blocks)),
{
    let comic_name = match first_pick(title) {
        Some(n) => n,
        None => {
            return None;
        },
    };
    let h = match headings {
        Some(h) => h,
        None => {
            return None;
        },
    };
    let b = match blocks {
        Some(b) => b,
        None => {
            return None;
        },
    };
    let ghost bv = crate::markup::block_views(b@);
    let mut per_block: Vec<Vec<CurrentElement>> = Vec::new();
    let mut k: usize = 0;
    while k < b.len()
        invariant
            k <= b@.len(),
            bv == crate::markup::block_views(b@),
            opt_blocks(*blocks) == Some(bv),
            per_block@.len() == k,
            forall|j: int| 0 <= j < k ==> all_links(#[trigger] bv[j]),
            forall|j: int| 0 <= j < k ==> sorted_by_key((#[trigger] per_block@[j])@)
                && is_stable_sort(gviews(per_block@[j]@),
                bv[j].map_values(|p: (Seq<char>, Option<Seq<char>>)| link_view(p))),
        decreases b@.len() - k,
    {
        match groups_from_links(&b[k]) {
            None => {
                assert(!all_links(bv[k as int]));
                assert(opt_blocks(*blocks).unwrap()[k as int] == bv[k as int]);
                return None;
            },
            Some(groups) => {
                let sorted = sort_groups(groups);
                per_block.push(sorted);
            },
        }
        k = k + 1;
    }
    let n = if h.len() < per_block.len() { h.len() } else { per_block.len() };
    let ghost hv = crate::markup::picked_views(h@);
    let mut categories: Vec<Category> = Vec::new();
    let mut rest = per_block;
    let ghost all = rest@;
    let mut j: usize = 0;
    while j < n
        invariant
            n <= h@.len(),
            n <= all.len(),
            hv == crate::markup::picked_views(h@),
            j <= n,
            rest@ == all.subrange(j as int, all.len() as int),
            categories@.len() == kept_headings(hv, n as int, j as int).len(),
            forall|i: int| 0 <= i < categories@.len() ==> (#[trigger] categories@[i]).title@
                == hv[kept_headings(hv, n as int, j as int)[i]].0
                && categories@[i].groups@ == all[kept_headings(hv, n as int, j as int)[i]]@,
        decreases n - j,
    {
        let groups = rest.remove(0);
        proof {
            assert(rest@ =~= all.subrange(j + 1, all.len() as int));
            assert(groups == all[j as int]);
        }
        let mut last = true;
        let mut l: usize = j + 1;
        while l < n
            invariant
                j < l <= n,
                n <= h@.len(),
                hv == crate::markup::picked_views(h@),
                last == (forall|x: int| j < x < l ==> (#[trigger] hv[x]).0 != hv[j as int].0),
            decreases n - l,
        {
            if h[l].0 == h[j].0 {
                last = false;
            }
            proof {
                assert(hv[l as int].0 == h@[l as int].0@);
                assert(hv[j as int].0 == h@[j as int].0@);
            }
            l = l + 1;
        }
        let ghost before = categories@;
        if last {
            categories.push(Category { title: h[j].0.clone(), groups });
        }
        proof {
            assert(last == last_of_title(hv, n as int, j as int));
            let ks = kept_headings(hv, n as int, j + 1);
            if last {
                assert(ks == kept_headings(hv, n as int, j as int).push(j as int));
                assert forall|i: int| 0 <= i < categories@.len() implies (#[trigger] categories@[i]).title@
                    == hv[ks[i]].0 && categories@[i].groups@ == all[ks[i]]@ by {
                    if i < before.len() {
                        assert(categories@[i] == before[i]);
                    }
                }
            } else {
                assert(ks == kept_headings(hv, n as int, j as int));
            }
        }
        j = j + 1;
    }
    proof {
        let ks = kept_headings(hv, n as int, n as int);
        lemma_kept_headings(hv, n as int, n as int);
        assert forall|a: int, c: int| 0 <= a < c < categories@.len() implies
            (#[trigger] categories@[a]).title@ != (#[trigger] categories@[c]).title@ by {
            assert(ks[a] < ks[c]);
            assert(last_of_title(hv, n as int, ks[a]));
            assert(hv[ks[c]].0 != hv[ks[a]].0);
        }
        assert forall|a: int| 0 <= a < ks.len() implies #[trigger] ks[a] < bv.len() by {}
    }
    Some(ComicListing { comic_name, categories })
}

/// Reads the comic page `html` (see `comic_from_picks`).
pub fn parse_comic_page(html: &str) -> (r: Option<ComicListing>)
    ensures
        comic_result(
            r,
            picked_of(html@, COMIC_TITLE@, LINK_TARGET@),
            picked_of(html@, CATEGORY_TITLES@, LINK_TARGET@),
            blocks_of(html@, CATEGORY_BLOCKS@, GROUP_LINKS@, LINK_TARGET@),
        ),
{
    let title = select_picked(html, COMIC_TITLE, LINK_TARGET);
    let headings = select_picked(html, CATEGORY_TITLES, LINK_TARGET);
    let blocks = select_blocks(html, CATEGORY_BLOCKS, GROUP_LINKS, LINK_TARGET);
    comic_from_picks(&title, &headings, &blocks)
}

/// An author page can be read: every comic link has a target.
pub open spec fn author_readable(links: Option<Picks>, names: Option<Picks>) -> bool {
    links.is_some() && names.is_some() && all_links(links.unwrap())
}

/// What reading an author page makes of its picks: one entry per comic link
/// and name, in page order (as many as the fewer of the two), none done.
pub open spec fn author_result(r: Option<Vec<AuthorElement>>, links: Option<Picks>, names: Option<Picks>) -> bool {
    &&& r.is_some() == author_readable(links, names)
    &&& r.is_some() ==> {
        let v = r.unwrap()@;
        let l = links.unwrap();
        let n = names.unwrap();
        &&& v.len() == min(l.len() as int, n.len() as int)
        &&& forall|i: int| 0 <= i < v.len() ==> {
            &&& (#[trigger] v[i]).url@ == absolute(SITE_ROOT@, l[i].1.unwrap())
            &&& v[i].comic_name@ == n[i].0
            &&& v[i].local@.len() == 0
            &&& !v[i].done
        }
    }
}

/// Reads the comics listed on an author page from its picks.
pub fn author_from_picks(
    links: &Option<Vec<(String, Option<String>)>>,
    names: &Option<Vec<(String, Option<String>)>>,
) -> (r: Option<Vec<AuthorElement>>)
    ensures
        author_result(r, opt_picks(*links), opt_picks(*names)),
{
    let l = match links {
        Some(l) => l,
        None => {
            return None;
        },
    };
    let n = match names {
        Some(n) => n,
        None => {
            return None;
        },
    };
    let groups = match groups_from_links(l) {
        Some(g) => g,
        None => {
            return None;
        },
    };
    let ghost lv = crate::markup::picked_views(l@);
    let ghost nv = crate::markup::picked_views(n@);
    proof {
        assert(gviews(groups@).len() == groups@.len());
    }
    let count = if groups.len() < n.len() { groups.len() } else { n.len() };
    let mut out: Vec<AuthorElement> = Vec::new();
    let mut i: usize = 0;
    while i < count
        invariant
            count <= groups@.len(),
            count <= n@.len(),
            groups@.len() == l@.len(),
            lv == crate::markup::picked_views(l@),
            nv == crate::markup::picked_views(n@),
            gviews(groups@) == lv.map_values(|p: (Seq<char>, Option<Seq<char>>)| link_view(p)),
            i <= count,
            out@.len() == i,
            forall|j: int| 0 <= j < i ==> {
                &&& (#[trigger] out@[j]).url@ == absolute(SITE_ROOT@, lv[j].1.unwrap())
                &&& out@[j].comic_name@ == nv[j].0
                &&& out@[j].local@.len() == 0
                &&& !out@[j].done
            },
        decreases count - i,
    {
        proof {
            assert(gviews(groups@)[i as int] == gview(groups@[i as int]));
        }
        out.push(AuthorElement {
            url: groups[i].href.clone(),
            comic_name: n[i].0.clone(),
            local: String::new(),
            done: false,
        });
        i = i + 1;
    }
    Some(out)
}

/// Reads the author page `html` (see `author_from_picks`).
pub fn parse_author_page(html: &str) -> (r: Option<Vec<AuthorElement>>)
    ensures
        author_result(
            r,
            picked_of(html@, AUTHOR_COMIC_LINKS@, LINK_TARGET@),
            picked_of(html@, AUTHOR_COMIC_NAMES@, LINK_TARGET@),
        ),
{
    let links = select_picked(html, AUTHOR_COMIC_LINKS, LINK_TARGET);
    let names = select_picked(html, AUTHOR_COMIC_NAMES, LINK_TARGET);
    author_from_picks(&links, &names)
}

/// Where a resolution takes its page from.
#[derive(PartialEq, Eq, Structural, Clone, Copy, Debug)]
pub enum ResolveStep {
    /// The cached descriptor is complete: return it as it is.
    UseCached,
    /// The raw page is cached: parse it, with no network request.
    ParseCachedPage,
    /// Nothing usable is cached: fetch the page (and cache it before parsing).
    FetchPage,
}

/// Decides where a resolution starts from: `cached_done` is the completion
/// flag of a cached descriptor (`None` when there is none), `raw_cached`
/// whether the raw page is cached. A cached raw page is never fetched again.
pub fn resolve_step(cached_done: Option<bool>, raw_cached: bool) -> (r: ResolveStep)
    ensures
        cached_done == Some(true) ==> r == ResolveStep::UseCached,
        cached_done != Some(true) && raw_cached ==> r == ResolveStep::ParseCachedPage,
        cached_done != Some(true) && !raw_cached ==> r == ResolveStep::FetchPage,
        raw_cached ==> r != ResolveStep::FetchPage,
{
    match cached_done {
        Some(true) => ResolveStep::UseCached,
        _ => if raw_cached {
            ResolveStep::ParseCachedPage
        } else {
            ResolveStep::FetchPage
        },
    }
}

/// Positions of the groups that still need leaf resolution (not done), in order.
pub fn groups_to_resolve(groups: &Vec<CurrentElement>) -> (r: Vec<usize>)
    ensures
        forall|k: int| 0 <= k < r@.len() ==> (#[trigger] r@[k]) < groups@.len() && !groups@[r@[k] as int].done,
        forall|k: int, l: int| 0 <= k < l < r@.len() ==> #[trigger] r@[k] < #[trigger] r@[l],
        forall|i: int| 0 <= i < groups@.len() && !(#[trigger] groups@[i]).done ==> r@.contains(i as usize),
{
    let mut r: Vec<usize> = Vec::new();
    let mut i: usize = 0;
    while i < groups.len()
        invariant
            i <= groups@.len(),
            forall|k: int| 0 <= k < r@.len() ==> (#[trigger] r@[k]) < i && !groups@[r@[k] as int].done,
            forall|k: int, l: int| 0 <= k < l < r@.len() ==> #[trigger] r@[k] < #[trigger] r@[l],
            forall|j: int| 0 <= j < i && !(#[trigger] groups@[j]).done ==> r@.contains(j as usize),
        decreases groups@.len() - i,
    {
        if !groups[i].done {
            let ghost before = r@;
            r.push(i);
            proof {
                assert forall|j: int| 0 <= j < i + 1 && !(#[trigger] groups@[j]).done implies r@.contains(j as usize) by {
                    if j == i {
                        assert(r@[r@.len() - 1] == i);
                    } else {
                        let k = choose|k: int| 0 <= k < before.len() && before[k] == j as usize;
                        assert(r@[k] == j as usize);
                    }
                }
            }
        }
        i = i + 1;
    }
    r
}

/// A leaf result fills its group: it succeeded and is done, with images.
pub open spec fn leaf_fills(res: HandleHtmlRes) -> bool {
    res.code == StatusCode::Success && res.done && res.data is VecData
}

/// Folds leaf results into `groups`: `results[i]` is the leaf resolution of
/// group `i`, or `None` when it was not resolved. A group that is done is
/// kept as it is. Another one takes the images and count of a result that
/// succeeded and is done, and becomes done; without such a result it is left
/// with no images, count 0, not done.
pub fn merge_leaf_results(groups: Vec<CurrentElement>, results: &Vec<Option<HandleHtmlRes>>) -> (r: Vec<CurrentElement>)
    ensures
        r@.len() == groups@.len(),
        forall|i: int| 0 <= i < groups@.len() && (#[trigger] groups@[i]).done ==> r@[i] == groups@[i],
        forall|i: int| 0 <= i < groups@.len() && !(#[trigger] groups@[i]).done ==> {
            &&& r@[i].name == groups@[i].name
            &&& r@[i].href == groups@[i].href
            &&& if i < results@.len() && results@[i] is Some && leaf_fills(results@[i].unwrap()) {
                let res = results@[i].unwrap();
                &&& r@[i].done
                &&& r@[i].count == res.current_count as usize
                &&& res.data matches DataWrapper::VecData(v) && r@[i].imgs@ == v@
            } else {
                &&& !r@[i].done
                &&& r@[i].count == 0
                &&& r@[i].imgs@.len() == 0
            }
        },
{
    let mut rest = groups;
    let ghost all = rest@;
    let total: usize = rest.len();
    let mut out: Vec<CurrentElement> = Vec::new();
    let mut i: usize = 0;
    while rest.len() > 0
        invariant
            i <= all.len(),
            all.len() == total,
            rest@ == all.subrange(i as int, all.len() as int),
            out@.len() == i,
            forall|j: int| 0 <= j < i && (#[trigger] all[j]).done ==> out@[j] == all[j],
            forall|j: int| 0 <= j < i && !(#[trigger] all[j]).done ==> {
                &&& out@[j].name == all[j].name
                &&& out@[j].href == all[j].href
                &&& if j < results@.len() && results@[j] is Some && leaf_fills(results@[j].unwrap()) {
                    let res = results@[j].unwrap();
                    &&& out@[j].done
                    &&& out@[j].count == res.current_count as usize
                    &&& res.data matches DataWrapper::VecData(v) && out@[j].imgs@ == v@
                } else {
                    &&& !out@[j].done
                    &&& out@[j].count == 0
                    &&& out@[j].imgs@.len() == 0
                }
            },
        decreases rest@.len(),
    {
        let mut g = rest.remove(0);
        proof {
            assert(g == all[i as int]);
            assert(rest@ =~= all.subrange(i + 1, all.len() as int));
        }
        if !g.done {
            let mut filled = false;
            if i < results.len() {
                match &results[i] {
                    Some(res) => {
                        if res.code == StatusCode::Success && res.done {
                            match &res.data {
                                DataWrapper::VecData(v) => {
                                    g.imgs = crate::descriptor::copy_imgs(v);
                                    g.count = res.current_count as usize;
                                    g.done = true;
                                    filled = true;
                                },
                                _ => {},
                            }
                        }
                    },
                    None => {},
                }
            }
            if !filled {
                g.imgs = Vec::new();
                g.count = 0;
                g.done = false;
            }
        }
        out.push(g);
        i = i + 1;
    }
    out
}

/// Every group of every category is done.
pub open spec fn listing_done(cats: Seq<Category>) -> bool {
    forall|k: int, i: int| 0 <= k < cats.len() && 0 <= i < cats[k].groups@.len() ==> (#[trigger] cats[k].groups@[i]).done
}

/// Whether every group of every category is done.
pub fn is_listing_done(cats: &Vec<Category>) -> (r: bool)
    ensures
        r == listing_done(cats@),
{
    let mut k: usize = 0;
    while k < cats.len()
        invariant
            k <= cats@.len(),
            forall|a: int, i: int| 0 <= a < k && 0 <= i < cats@[a].groups@.len() ==> (#[trigger] cats@[a].groups@[i]).done,
        decreases cats@.len() - k,
    {
        let groups = &cats[k].groups;
        let mut i: usize = 0;
        while i < groups.len()
            invariant
                k < cats@.len(),
                groups@ == cats@[k as int].groups@,
                i <= groups@.len(),
                forall|j: int| 0 <= j < i ==> (#[trigger] groups@[j]).done,
            decreases groups@.len() - i,
        {
            if !groups[i].done {
                assert(!cats@[k as int].groups@[i as int].done);
                return false;
            }
            i = i + 1;
        }
        k = k + 1;
    }
    true
}

/// A batch of leaf resolutions: positions `start..end`.
#[derive(PartialEq, Eq, Structural, Clone, Copy, Debug)]
pub struct Batch {
    pub start: usize,
    pub end: usize,
}

/// Default number of leaf resolutions run at once.
pub const LEAF_BATCH: usize = 5;

/// Cuts `0..n` into consecutive, non-empty batches of `size` positions (the
/// last one may be shorter), in order, that together cover `0..n`.
pub fn batches(n: usize, size: usize) -> (r: Vec<Batch>)
    requires
        size > 0,
    ensures
        (r@.len() == 0) == (n == 0),
        r@.len() > 0 ==> r@.last().end == n,
        forall|k: int| 0 <= k < r@.len() ==> (#[trigger] r@[k]).start == k * size
            && r@[k].end == min((k + 1) * size, n as int)
            && r@[k].start < r@[k].end,
{
    let mut r: Vec<Batch> = Vec::new();
    let mut start: usize = 0;
    assert(r@.len() * size == 0);
    while start < n
        invariant
            size > 0,
            start <= n,
            start < n ==> start == r@.len() * size,
            (r@.len() == 0) == (start == 0),
            r@.len() > 0 ==> r@.last().end == start,
            forall|k: int| 0 <= k < r@.len() ==> (#[trigger] r@[k]).start == k * size
                && r@[k].end == min((k + 1) * size, n as int)
                && r@[k].start < r@[k].end,
        decreases n - start,
    {
        let end = if n - start < size { n } else { start + size };
        proof {
            assert((r@.len() + 1) * size == r@.len() * size + size) by (nonlinear_arith);
        }
        r.push(Batch { start, end });
        start = end;
    }
    r
}

/// What folding comic resolutions makes of one author entry `c`, given the
/// resolution `res` of its comic (`None` when it was not resolved).
pub open spec fn author_entry_after(c: AuthorElement, res: Option<HandleHtmlRes>, r: AuthorElement) -> bool {
    if !c.done && res is Some && res.unwrap().done {
        r == AuthorElement { local: res.unwrap().local, done: true, ..c }
    } else {
        r == c
    }
}

/// Folds comic resolutions into an author listing: `results[i]` is the
/// resolution of comic `i`, or `None` when it was not resolved. A comic not
/// yet done becomes done, at the result's cache location, when its resolution
/// is done; the others are kept. Also returns whether every comic is done.
pub fn fold_author_results(comics: Vec<AuthorElement>, results: &Vec<Option<HandleHtmlRes>>) -> (r: (Vec<AuthorElement>, bool))
    ensures
        r.0@.len() == comics@.len(),
        forall|i: int| 0 <= i < comics@.len() ==> author_entry_after(#[trigger] comics@[i],
            if i < results@.len() { results@[i] } else { None }, r.0@[i]),
        r.1 == forall|i: int| 0 <= i < r.0@.len() ==> (#[trigger] r.0@[i]).done,
{
    let mut rest = comics;
    let ghost all = rest@;
    let total: usize = rest.len();
    let mut out: Vec<AuthorElement> = Vec::new();
    let mut all_done = true;
    let mut i: usize = 0;
    while rest.len() > 0
        invariant
            i <= all.len(),
            all.len() == total,
            rest@ == all.subrange(i as int, all.len() as int),
            out@.len() == i,
            forall|j: int| 0 <= j < i ==> author_entry_after(#[trigger] all[j],
                if j < results@.len() { results@[j] } else { None }, out@[j]),
            all_done == forall|j: int| 0 <= j < i ==> (#[trigger] out@[j]).done,
        decreases rest@.len(),
    {
        let mut c = rest.remove(0);
        proof {
            assert(c == all[i as int]);
            assert(rest@ =~= all.subrange(i + 1, all.len() as int));
        }
        if !c.done && i < results.len() {
            match &results[i] {
                Some(res) => {
                    if res.done {
                        c.local = res.local.clone();
                        c.done = true;
                    }
                },
                None => {},
            }
        }
        if !c.done {
            all_done = false;
        }
        let ghost before = out@;
        out.push(c);
        proof {
            assert forall|j: int| 0 <= j < i + 1 implies author_entry_after(#[trigger] all[j],
                if j < results@.len() { results@[j] } else { None }, out@[j]) by {
                if j < i {
                    assert(out@[j] == before[j]);
                }
            }
            if all_done {
                assert forall|j: int| 0 <= j < i + 1 implies (#[trigger] out@[j]).done by {
                    if j < i {
                        assert(out@[j] == before[j]);
                    }
                }
            } else if c.done {
                let w = choose|j: int| 0 <= j < i && !(#[trigger] before[j]).done;
                assert(out@[w] == before[w]);
            } else {
                assert(!out@[i as int].done);
            }
        }
        i = i + 1;
    }
    (out, all_done)
}

} // verus!
