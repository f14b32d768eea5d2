//! Where a task's images are written, relative to the download directory.
use vstd::prelude::*;
use crate::task::DlType;

verus! {

pub open spec fn digit_char(d: nat) -> char {
    if d == 0 { '0' } else if d == 1 { '1' } else if d == 2 { '2' } else if d == 3 { '3' }
    else if d == 4 { '4' } else if d == 5 { '5' } else if d == 6 { '6' } else if d == 7 { '7' }
    else if d == 8 { '8' } else { '9' }
}

/// The decimal writing of `n`.
pub open spec fn decimal(n: nat) -> Seq<char>
    decreases n,
{
    if n < 10 {
        seq![digit_char(n)]
    } else {
        decimal(n / 10).push(digit_char(n % 10))
    }
}

fn digit_str(d: usize) -> (r: &'static str)
    requires
        d < 10,
    ensures
        r@ == seq![digit_char(d as nat)],
{
    proof {
        reveal_strlit("0");
        reveal_strlit("1");
        reveal_strlit("2");
        reveal_strlit("3");
        reveal_strlit("4");
        reveal_strlit("5");
        reveal_strlit("6");
        reveal_strlit("7");
        reveal_strlit("8");
        reveal_strlit("9");
    }
    let r = if d == 0 { "0" } else if d == 1 { "1" } else if d == 2 { "2" } else if d == 3 { "3" }
        else if d == 4 { "4" } else if d == 5 { "5" } else if d == 6 { "6" } else if d == 7 { "7" }
        else if d == 8 { "8" } else { "9" };
    assert(r@ =~= seq![digit_char(d as nat)]);
    r
}

/// The decimal writing of `n`.
pub fn decimal_string(n: usize) -> (r: String)
    ensures
        r@ == decimal(n as nat),
    decreases n,
{
    if n < 10 {
        digit_str(n).to_owned()
    } else {
        let mut r = decimal_string(n / 10);
        r.append(digit_str(n % 10));
        r
    }
}

/// Title of the category a grouped task downloads, as its directory shows it.
pub open spec fn category_dir(kind: DlType) -> Seq<char> {
    match kind {
        DlType::Juan => crate::ingress::VOLUMES_TITLE@,
        DlType::Hua => crate::ingress::CHAPTERS_TITLE@,
        DlType::Fanwai => crate::ingress::EXTRAS_TITLE@,
        DlType::Current => "current"@,
        _ => Seq::empty(),
    }
}

/// The path of image `index` of group `group` of a task, relative to the
/// download directory. A single chapter's images go to
/// "<name>/<index>.jpg"; a category's to "<name>_<category>/<group>/<index>.jpg",
/// under "<author>/" when the task has an author.
pub open spec fn image_path_spec(kind: DlType, author: Seq<char>, name: Seq<char>, group: Seq<char>, index: nat) -> Seq<char> {
    if kind == DlType::Current {
        name + "/"@ + decimal(index) + ".jpg"@
    } else {
        (if author.len() == 0 { Seq::empty() } else { author + "/"@ })
            + name + "_"@ + category_dir(kind) + "/"@ + group + "/"@ + decimal(index) + ".jpg"@
    }
}

fn category_dir_str(kind: DlType) -> (r: &'static str)
    ensures
        r@ == category_dir(kind),
{
    proof {
        reveal_strlit("");
    }
    match kind {
        DlType::Juan => crate::ingress::VOLUMES_TITLE,
        DlType::Hua => crate::ingress::CHAPTERS_TITLE,
        DlType::Fanwai => crate::ingress::EXTRAS_TITLE,
        DlType::Current => "current",
        _ => "",
    }
}

/// The path of image `index` of group `group` of a task of kind `kind` by
/// `author` named `name`, relative to the download directory.
pub fn image_path(kind: DlType, author: &str, name: &str, group: &str, index: usize) -> (r: String)
    ensures
        r@ == image_path_spec(kind, author@, name@, group@, index as nat),
{
    let mut r = String::new();
    if kind == DlType::Current {
        r.append(name);
        r.append("/");
        r.append(decimal_string(index).as_str());
        r.append(".jpg");
        return r;
    }
    if author.unicode_len() > 0 {
        r.append(author);
        r.append("/");
    }
    r.append(name);
    r.append("_");
    r.append(category_dir_str(kind));
    r.append("/");
    r.append(group);
    r.append("/");
    r.append(decimal_string(index).as_str());
    r.append(".jpg");
    proof {
        if author@.len() == 0 {
            assert(r@ =~= image_path_spec(kind, author@, name@, group@, index as nat));
        } else {
            assert(r@ =~= image_path_spec(kind, author@, name@, group@, index as nat));
        }
    }
    r
}

/// Name of a page-cache file: "antbyw_<page>_<id>.htmlcache" for the raw page,
/// "antbyw_<page>_<id>.json" for its resolved descriptor.
pub fn cache_file_name(page: &str, id: &str, raw: bool) -> (r: String)
    ensures
        r@ == "antbyw_"@ + page@ + "_"@ + id@ + if raw { ".htmlcache"@ } else { ".json"@ },
{
    let mut r = "antbyw_".to_owned();
    r.append(page);
    r.append("_");
    r.append(id);
    if raw {
        r.append(".htmlcache");
    } else {
        r.append(".json");
    }
    r
}

} // verus!
