//! The work descriptor: categories of groups (chapters, volumes, extras), each
//! holding an ordered list of images with a completion flag.
use vstd::prelude::*;

verus! {

/// Outcome code carried by a resolution result.
#[derive(PartialEq, Eq, Structural, Clone, Copy, Debug)]
pub enum StatusCode {
    Success,
    Failed,
}

/// One image: its source address and whether it has been stored.
#[derive(Clone, Debug)]
pub struct Img {
    pub href: String,
    pub done: bool,
}

/// A group (a chapter or a volume): display name, source page, its images,
/// the advertised image count and a completion flag.
#[derive(Clone, Debug)]
pub struct CurrentElement {
    pub name: String,
    pub href: String,
    pub imgs: Vec<Img>,
    pub count: usize,
    pub done: bool,
}

/// A titled category of groups ("volumes", "chapters", "extras").
#[derive(Clone, Debug)]
pub struct Category {
    pub title: String,
    pub groups: Vec<CurrentElement>,
}

/// One comic listed on an author page.
#[derive(Clone, Debug)]
pub struct AuthorElement {
    pub url: String,
    pub comic_name: String,
    pub local: String,
    pub done: bool,
}

/// The payload of a resolution: a category listing, an author listing, or the
/// flat image list of a single chapter.
#[derive(Clone, Debug)]
pub enum DataWrapper {
    CategoryData(Vec<Category>),
    VecAuthorData(Vec<AuthorElement>),
    VecData(Vec<Img>),
}

/// Number of groups per category of a comic listing.
#[derive(Clone, Copy, Debug)]
pub struct JuanHuaFanwaiCount {
    pub juan: usize,
    pub hua: usize,
    pub fanwai: usize,
    pub all: usize,
}

/// Number of images of `s` whose flag is set.
pub open spec fn imgs_done(s: Seq<Img>) -> nat
    decreases s.len(),
{
    if s.len() == 0 {
        0
    } else {
        imgs_done(s.drop_last()) + if s.last().done {
            1nat
        } else {
            0nat
        }
    }
}

/// Number of images, over all groups, whose flag is set.
pub open spec fn groups_done(s: Seq<CurrentElement>) -> nat
    decreases s.len(),
{
    if s.len() == 0 {
        0
    } else {
        groups_done(s.drop_last()) + imgs_done(s.last().imgs@)
    }
}

/// Number of images over all groups.
pub open spec fn groups_total(s: Seq<CurrentElement>) -> nat
    decreases s.len(),
{
    if s.len() == 0 {
        0
    } else {
        groups_total(s.drop_last()) + s.last().imgs@.len()
    }
}

/// Every image of every group is done.
pub open spec fn all_imgs_done(s: Seq<CurrentElement>) -> bool {
    forall|g: int, i: int|
        0 <= g < s.len() && 0 <= i < s[g].imgs@.len() ==> #[trigger] s[g].imgs@[i].done
}

/// Every flag that is set in `a` is set in `b`, and `b` has the shape of `a`
/// with the same sources.
pub open spec fn flags_grow(a: Seq<CurrentElement>, b: Seq<CurrentElement>) -> bool {
    &&& a.len() == b.len()
    &&& forall|g: int|
        0 <= g < a.len() ==> {
            &&& #[trigger] b[g].imgs@.len() == a[g].imgs@.len()
            &&& b[g].name == a[g].name
            &&& b[g].href == a[g].href
            &&& forall|i: int|
                0 <= i < a[g].imgs@.len() ==> {
                    &&& #[trigger] b[g].imgs@[i].href == a[g].imgs@[i].href
                    &&& (a[g].imgs@[i].done ==> b[g].imgs@[i].done)
                }
        }
}

pub proof fn lemma_imgs_done_bounded(s: Seq<Img>)
    ensures
        imgs_done(s) <= s.len(),
    decreases s.len(),
{
    if s.len() > 0 {
        lemma_imgs_done_bounded(s.drop_last());
    }
}

pub proof fn lemma_groups_done_bounded(s: Seq<CurrentElement>)
    ensures
        groups_done(s) <= groups_total(s),
    decreases s.len(),
{
    if s.len() > 0 {
        lemma_groups_done_bounded(s.drop_last());
        lemma_imgs_done_bounded(s.last().imgs@);
    }
}

pub proof fn lemma_imgs_done_all(s: Seq<Img>)
    ensures
        imgs_done(s) == s.len() <==> forall|i: int| 0 <= i < s.len() ==> #[trigger] s[i].done,
    decreases s.len(),
{
    if s.len() > 0 {
        lemma_imgs_done_all(s.drop_last());
        lemma_imgs_done_bounded(s.drop_last());
        if forall|i: int| 0 <= i < s.len() ==> #[trigger] s[i].done {
            assert forall|i: int| 0 <= i < s.drop_last().len() implies #[trigger] s.drop_last()[i].done by {
                assert(s[i].done);
            }
        }
        if imgs_done(s) == s.len() {
            assert forall|i: int| 0 <= i < s.len() implies #[trigger] s[i].done by {
                if i < s.len() - 1 {
                    assert(s.drop_last()[i].done);
                }
            }
        }
    }
}

/// Setting one flag of a sequence of images changes the count by one when the
/// flag was clear, and not at all otherwise.
pub proof fn lemma_imgs_done_set(s: Seq<Img>, i: int, x: Img)
    requires
        0 <= i < s.len(),
        x.done,
    ensures
        imgs_done(s.update(i, x)) == imgs_done(s) + if s[i].done {
            0int
        } else {
            1int
        },
    decreases s.len(),
{
    if i == s.len() - 1 {
        assert(s.update(i, x).drop_last() =~= s.drop_last());
    } else {
        lemma_imgs_done_set(s.drop_last(), i, x);
        assert(s.update(i, x).drop_last() =~= s.drop_last().update(i, x));
    }
}

pub proof fn lemma_groups_set(s: Seq<CurrentElement>, g: int, x: CurrentElement)
    requires
        0 <= g < s.len(),
    ensures
        groups_done(s.update(g, x)) == groups_done(s) - imgs_done(s[g].imgs@) + imgs_done(
            x.imgs@,
        ),
        groups_total(s.update(g, x)) == groups_total(s) - s[g].imgs@.len() + x.imgs@.len(),
    decreases s.len(),
{
    if g == s.len() - 1 {
        assert(s.update(g, x).drop_last() =~= s.drop_last());
    } else {
        lemma_groups_set(s.drop_last(), g, x);
        assert(s.update(g, x).drop_last() =~= s.drop_last().update(g, x));
    }
}

pub proof fn lemma_groups_done_all(s: Seq<CurrentElement>)
    ensures
        groups_done(s) == groups_total(s) <==> all_imgs_done(s),
    decreases s.len(),
{
    if s.len() > 0 {
        let p = s.drop_last();
        lemma_groups_done_all(p);
        lemma_groups_done_bounded(p);
        lemma_imgs_done_bounded(s.last().imgs@);
        lemma_imgs_done_all(s.last().imgs@);
        if all_imgs_done(s) {
            assert forall|g: int, i: int|
                0 <= g < p.len() && 0 <= i < p[g].imgs@.len() implies #[trigger] p[g].imgs@[i].done by {
                assert(s[g].imgs@[i].done);
            }
            assert forall|i: int| 0 <= i < s.last().imgs@.len() implies #[trigger] s.last().imgs@[i].done by {
                assert(s[s.len() - 1].imgs@[i].done);
            }
        }
        if groups_done(s) == groups_total(s) {
            assert forall|g: int, i: int|
                0 <= g < s.len() && 0 <= i < s[g].imgs@.len() implies #[trigger] s[g].imgs@[i].done by {
                if g < s.len() - 1 {
                    assert(p[g].imgs@[i].done);
                } else {
                    assert(s.last().imgs@[i].done);
                }
            }
        }
    }
}

/// The done count of a descriptor is the sum, over its items, of one for each
/// item whose flag is set: it never exceeds the number of items, and it equals
/// that number exactly when every item is done.
pub proof fn done_count_is_sum_of_flags(s: Seq<CurrentElement>)
    ensures
        groups_done(s) <= groups_total(s),
        groups_done(s) == groups_total(s) <==> all_imgs_done(s),
        s.len() > 0 ==> groups_done(s) == groups_done(s.drop_last()) + imgs_done(s.last().imgs@),
{
    lemma_groups_done_bounded(s);
    lemma_groups_done_all(s);
}

impl Img {
    /// A copy of this image entry.
    pub fn copy(&self) -> (r: Img)
        ensures
            r == *self,
    {
        Img { href: self.href.clone(), done: self.done }
    }
}

/// A copy of a list of images.
pub fn copy_imgs(v: &Vec<Img>) -> (r: Vec<Img>)
    ensures
        r@ == v@,
{
    let mut r: Vec<Img> = Vec::new();
    let mut i: usize = 0;
    while i < v.len()
        invariant
            i <= v@.len(),
            r@ == v@.subrange(0, i as int),
        decreases v@.len() - i,
    {
        r.push(v[i].copy());
        i = i + 1;
    }
    assert(r@ =~= v@);
    r
}

/// Number of images of `imgs` that are done.
pub fn img_done_count(imgs: &Vec<Img>) -> (r: usize)
    ensures
        r == imgs_done(imgs@),
{
    let mut r: usize = 0;
    let mut i: usize = 0;
    while i < imgs.len()
        invariant
            i <= imgs@.len(),
            r == imgs_done(imgs@.subrange(0, i as int)),
        decreases imgs@.len() - i,
    {
        proof {
            assert(imgs@.subrange(0, i + 1).drop_last() =~= imgs@.subrange(0, i as int));
            lemma_imgs_done_bounded(imgs@.subrange(0, i + 1));
        }
        if imgs[i].done {
            r = r + 1;
        }
        i = i + 1;
    }
    assert(imgs@.subrange(0, i as int) =~= imgs@);
    r
}

/// Number of images over all groups of `groups`.
pub fn total_count(groups: &Vec<CurrentElement>) -> (r: usize)
    requires
        groups_total(groups@) <= usize::MAX,
    ensures
        r == groups_total(groups@),
{
    let mut r: usize = 0;
    let mut g: usize = 0;
    while g < groups.len()
        invariant
            g <= groups@.len(),
            r == groups_total(groups@.subrange(0, g as int)),
            groups_total(groups@) <= usize::MAX,
        decreases groups@.len() - g,
    {
        proof {
            let p = groups@.subrange(0, g + 1);
            assert(p.drop_last() =~= groups@.subrange(0, g as int));
            lemma_total_prefix(groups@, g + 1);
        }
        r = r + groups[g].imgs.len();
        g = g + 1;
    }
    assert(groups@.subrange(0, g as int) =~= groups@);
    r
}

pub proof fn lemma_total_prefix(s: Seq<CurrentElement>, n: int)
    requires
        0 <= n <= s.len(),
    ensures
        groups_total(s.subrange(0, n)) <= groups_total(s),
        groups_done(s.subrange(0, n)) <= groups_done(s),
    decreases s.len() - n,
{
    if n < s.len() {
        lemma_total_prefix(s, n + 1);
        assert(s.subrange(0, n + 1).drop_last() =~= s.subrange(0, n));
    } else {
        assert(s.subrange(0, n) =~= s);
    }
}

/// Number of images over all groups whose flag is set, recounted from the
/// flags themselves.
pub fn done_count(groups: &Vec<CurrentElement>) -> (r: usize)
    requires
        groups_total(groups@) <= usize::MAX,
    ensures
        r == groups_done(groups@),
        r <= groups_total(groups@),
{
    proof {
        lemma_groups_done_bounded(groups@);
    }
    let mut r: usize = 0;
    let mut g: usize = 0;
    while g < groups.len()
        invariant
            g <= groups@.len(),
            r == groups_done(groups@.subrange(0, g as int)),
            groups_total(groups@) <= usize::MAX,
        decreases groups@.len() - g,
    {
        proof {
            let p = groups@.subrange(0, g + 1);
            assert(p.drop_last() =~= groups@.subrange(0, g as int));
            lemma_total_prefix(groups@, g + 1);
            lemma_groups_done_bounded(groups@);
            lemma_groups_done_bounded(groups@.subrange(0, g + 1));
        }
        r = r + img_done_count(&groups[g].imgs);
        g = g + 1;
    }
    assert(groups@.subrange(0, g as int) =~= groups@);
    r
}

/// The result of resolving a page: its code, payload, cache location,
/// message, names, advertised image count and whether it is complete.
#[derive(Clone, Debug)]
pub struct HandleHtmlRes {
    pub code: StatusCode,
    pub data: DataWrapper,
    pub local: String,
    pub msg: String,
    pub author: String,
    pub comic_name: String,
    pub current_name: String,
    pub current_count: u32,
    pub done: bool,
}

/// `a` and `b` hold the same group.
pub open spec fn same_group(a: CurrentElement, b: CurrentElement) -> bool {
    &&& a.name == b.name
    &&& a.href == b.href
    &&& a.imgs@ == b.imgs@
    &&& a.count == b.count
    &&& a.done == b.done
}

/// `a` and `b` hold the same groups.
pub open spec fn same_groups(a: Seq<CurrentElement>, b: Seq<CurrentElement>) -> bool {
    &&& a.len() == b.len()
    &&& forall|i: int| 0 <= i < a.len() ==> same_group(#[trigger] a[i], b[i])
}

/// `a` and `b` hold the same category.
pub open spec fn same_category(a: Category, b: Category) -> bool {
    a.title == b.title && same_groups(a.groups@, b.groups@)
}

/// `a` and `b` hold the same payload.
pub open spec fn same_data(a: DataWrapper, b: DataWrapper) -> bool {
    match (a, b) {
        (DataWrapper::CategoryData(x), DataWrapper::CategoryData(y)) => {
            &&& x@.len() == y@.len()
            &&& forall|i: int| 0 <= i < x@.len() ==> same_category(#[trigger] x@[i], y@[i])
        },
        (DataWrapper::VecAuthorData(x), DataWrapper::VecAuthorData(y)) => x@ == y@,
        (DataWrapper::VecData(x), DataWrapper::VecData(y)) => x@ == y@,
        _ => false,
    }
}

impl CurrentElement {
    /// A copy of this group.
    pub fn copy(&self) -> (r: CurrentElement)
        ensures
            same_group(r, *self),
    {
        CurrentElement {
            name: self.name.clone(),
            href: self.href.clone(),
            imgs: copy_imgs(&self.imgs),
            count: self.count,
            done: self.done,
        }
    }
}

/// A copy of a list of groups.
pub fn copy_groups(v: &Vec<CurrentElement>) -> (r: Vec<CurrentElement>)
    ensures
        same_groups(r@, v@),
{
    let mut r: Vec<CurrentElement> = Vec::new();
    let mut i: usize = 0;
    while i < v.len()
        invariant
            i <= v@.len(),
            r@.len() == i,
            forall|j: int| 0 <= j < i ==> same_group(#[trigger] r@[j], v@[j]),
        decreases v@.len() - i,
    {
        r.push(v[i].copy());
        i = i + 1;
    }
    r
}

impl AuthorElement {
    /// A copy of this entry.
    pub fn copy(&self) -> (r: AuthorElement)
        ensures
            r == *self,
    {
        AuthorElement {
            url: self.url.clone(),
            comic_name: self.comic_name.clone(),
            local: self.local.clone(),
            done: self.done,
        }
    }
}

impl DataWrapper {
    /// A copy of this payload.
    pub fn copy(&self) -> (r: DataWrapper)
        ensures
            same_data(r, *self),
    {
        match self {
            DataWrapper::CategoryData(cats) => {
                let mut r: Vec<Category> = Vec::new();
                let mut i: usize = 0;
                while i < cats.len()
                    invariant
                        i <= cats@.len(),
                        r@.len() == i,
                        forall|j: int| 0 <= j < i ==> same_category(#[trigger] r@[j], cats@[j]),
                    decreases cats@.len() - i,
                {
                    r.push(Category { title: cats[i].title.clone(), groups: copy_groups(&cats[i].groups) });
                    i = i + 1;
                }
                DataWrapper::CategoryData(r)
            },
            DataWrapper::VecAuthorData(v) => {
                let mut r: Vec<AuthorElement> = Vec::new();
                let mut i: usize = 0;
                while i < v.len()
                    invariant
                        i <= v@.len(),
                        r@ == v@.subrange(0, i as int),
                    decreases v@.len() - i,
                {
                    r.push(v[i].copy());
                    i = i + 1;
                }
                assert(r@ =~= v@);
                DataWrapper::VecAuthorData(r)
            },
            DataWrapper::VecData(v) => DataWrapper::VecData(copy_imgs(v)),
        }
    }
}

impl HandleHtmlRes {
    /// The outcome code.
    pub fn code(&self) -> (r: StatusCode)
        ensures
            r == self.code,
    {
        self.code
    }

    /// A copy of the payload.
    pub fn data(&self) -> (r: DataWrapper)
        ensures
            same_data(r, self.data),
    {
        self.data.copy()
    }

    /// A failed, empty result: no categories, empty texts, count 0, not done.
    pub fn new() -> (r: HandleHtmlRes)
        ensures
            r.code == StatusCode::Failed,
            r.data matches DataWrapper::CategoryData(v) && v@.len() == 0,
            r.local@.len() == 0,
            r.msg@.len() == 0,
            r.author@.len() == 0,
            r.comic_name@.len() == 0,
            r.current_name@.len() == 0,
            r.current_count == 0,
            !r.done,
    {
        HandleHtmlRes {
            code: StatusCode::Failed,
            data: DataWrapper::CategoryData(Vec::new()),
            local: String::new(),
            msg: String::new(),
            author: String::new(),
            comic_name: String::new(),
            current_name: String::new(),
            current_count: 0,
            done: false,
        }
    }

    /// A failed result carrying `msg`, with empty fields and `data` as payload.
    pub fn failed(msg: String, data: DataWrapper) -> (r: HandleHtmlRes)
        ensures
            r.code == StatusCode::Failed,
            r.data == data,
            r.msg == msg,
            r.local@.len() == 0,
            r.author@.len() == 0,
            r.comic_name@.len() == 0,
            r.current_name@.len() == 0,
            r.current_count == 0,
            !r.done,
    {
        HandleHtmlRes {
            code: StatusCode::Failed,
            data,
            local: String::new(),
            msg,
            author: String::new(),
            comic_name: String::new(),
            current_name: String::new(),
            current_count: 0,
            done: false,
        }
    }
}

/// Number of images over all groups, when it fits in a `usize`.
pub fn checked_total_count(groups: &Vec<CurrentElement>) -> (r: Option<usize>)
    ensures
        r.is_some() == (groups_total(groups@) <= usize::MAX),
        r.is_some() ==> r.unwrap() == groups_total(groups@),
{
    let mut r: usize = 0;
    let mut g: usize = 0;
    while g < groups.len()
        invariant
            g <= groups@.len(),
            r == groups_total(groups@.subrange(0, g as int)),
        decreases groups@.len() - g,
    {
        proof {
            assert(groups@.subrange(0, g + 1).drop_last() =~= groups@.subrange(0, g as int));
            lemma_total_prefix(groups@, g + 1);
        }
        match r.checked_add(groups[g].imgs.len()) {
            Some(next) => {
                r = next;
            },
            None => {
                return None;
            },
        }
        g = g + 1;
    }
    assert(groups@.subrange(0, g as int) =~= groups@);
    Some(r)
}

} // verus!
