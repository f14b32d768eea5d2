//! Names of local files and directories, on '/'-separated paths.
use vstd::prelude::*;
use crate::text::{split_spec, split_string, str_eq, views};

verus! {

/// The last segment of `segs` that is neither empty nor ".".
pub open spec fn last_named(segs: Seq<Seq<char>>) -> Option<Seq<char>>
    decreases segs.len(),
{
    if segs.len() == 0 {
        None
    } else if segs.last().len() == 0 || segs.last() == seq!['.'] {
        last_named(segs.drop_last())
    } else {
        Some(segs.last())
    }
}

/// The final component of `p` as `Path::file_name` reads a '/'-separated
/// path: empty and "." components are skipped, and a final ".." names no file.
pub open spec fn file_name_spec(p: Seq<char>) -> Option<Seq<char>> {
    match last_named(split_spec(p, seq!['/'])) {
        Some(x) => if x == seq!['.', '.'] { None } else { Some(x) },
        None => None,
    }
}

/// Position of the last '.' of `s`, or -1.
pub open spec fn last_dot(s: Seq<char>) -> int
    decreases s.len(),
{
    if s.len() == 0 {
        -1
    } else if s.last() == '.' {
        s.len() - 1
    } else {
        last_dot(s.drop_last())
    }
}

/// The name without its extension: up to the last '.', unless the only '.'
/// that could split it is the first character.
pub open spec fn stem_spec(name: Seq<char>) -> Seq<char> {
    let k = last_dot(name);
    if k <= 0 { name } else { name.subrange(0, k) }
}

/// The extension of a name: what follows its last '.', when that '.' is not
/// the first character.
pub open spec fn extension_spec(name: Seq<char>) -> Option<Seq<char>> {
    let k = last_dot(name);
    if k <= 0 { None } else { Some(name.subrange(k + 1, name.len() as int)) }
}

proof fn lemma_last_dot_bounds(s: Seq<char>)
    ensures
        -1 <= last_dot(s) < s.len(),
        last_dot(s) >= 0 ==> s[last_dot(s)] == '.',
    decreases s.len(),
{
    if s.len() > 0 && s.last() != '.' {
        lemma_last_dot_bounds(s.drop_last());
    }
}

/// The final component of `path`, if it names a file or directory.
pub fn get_dir_name(path: &str) -> (r: Option<String>)
    ensures
        match r {
            Some(x) => file_name_spec(path@) == Some(x@),
            None => file_name_spec(path@).is_none(),
        },
{
    let slash = "/";
    proof {
        reveal_strlit("/");
        assert(slash@ =~= seq!['/']);
    }
    let segs = split_string(path, slash);
    let ghost sv = views(segs@);
    assert(sv.subrange(0, sv.len() as int) =~= sv);
    let mut i: usize = segs.len();
    while i > 0
        invariant
            i <= segs@.len(),
            sv == views(segs@),
            sv == split_spec(path@, seq!['/']),
            last_named(sv) == last_named(sv.subrange(0, i as int)),
        decreases i,
    {
        let seg = segs[i - 1].as_str();
        proof {
            assert(sv.subrange(0, i as int).drop_last() =~= sv.subrange(0, i - 1));
            assert(sv.subrange(0, i as int).last() == seg@);
            reveal_strlit(".");
            reveal_strlit("..");
        }
        let n = seg.unicode_len();
        if n != 0 && !str_eq(seg, ".") {
            proof {
                assert(seg@ != seq!['.']) by {
                    assert("."@ =~= seq!['.']);
                }
            }
            if str_eq(seg, "..") {
                assert(".."@ =~= seq!['.', '.']);
                return None;
            }
            assert(".."@ =~= seq!['.', '.']);
            return Some(seg.to_owned());
        }
        proof {
            assert("."@ =~= seq!['.']);
        }
        i = i - 1;
    }
    None
}

/// The final component of `path` without its extension, if it names a file.
pub fn get_file_name_without_extension(path: &str) -> (r: Option<String>)
    ensures
        match r {
            Some(x) => file_name_spec(path@).is_some() && x@ == stem_spec(file_name_spec(path@).unwrap()),
            None => file_name_spec(path@).is_none(),
        },
{
    match get_dir_name(path) {
        None => None,
        Some(name) => {
            match last_dot_of(name.as_str()) {
                Some(k) => if k == 0 {
                    Some(name)
                } else {
                    Some(name.as_str().substring_char(0, k).to_owned())
                },
                None => Some(name),
            }
        },
    }
}

/// Position of the last '.' of `s`, if any.
fn last_dot_of(s: &str) -> (r: Option<usize>)
    ensures
        match r {
            Some(k) => last_dot(s@) == k && k < s@.len(),
            None => last_dot(s@) == -1,
        },
{
    proof {
        lemma_last_dot_bounds(s@);
    }
    let n = s.unicode_len();
    assert(s@.subrange(0, n as int) =~= s@);
    let mut i: usize = n;
    while i > 0
        invariant
            n == s@.len(),
            i <= n,
            last_dot(s@) == last_dot(s@.subrange(0, i as int)),
        decreases i,
    {
        proof {
            assert(s@.subrange(0, i as int).drop_last() =~= s@.subrange(0, i - 1));
        }
        if s.get_char(i - 1) == '.' {
            return Some(i - 1);
        }
        i = i - 1;
    }
    None
}

/// `c` is `lower` or its ASCII upper-case letter.
pub open spec fn ascii_fold_eq(c: char, lower: char) -> bool {
    c == lower || ('A' <= c && c <= 'Z' && c as u32 + 32 == lower as u32)
}

/// `s` equals the lower-case ASCII word `lower` when ASCII letters are
/// compared without case.
pub open spec fn eq_ignore_case(s: Seq<char>, lower: Seq<char>) -> bool {
    s.len() == lower.len() && forall|i: int| 0 <= i < s.len() ==> ascii_fold_eq(#[trigger] s[i], lower[i])
}

fn eq_ignore_case_exec(s: &str, lower: &str) -> (r: bool)
    ensures
        r == eq_ignore_case(s@, lower@),
{
    let n = s.unicode_len();
    if n != lower.unicode_len() {
        return false;
    }
    let mut i: usize = 0;
    while i < n
        invariant
            n == s@.len(),
            n == lower@.len(),
            i <= n,
            forall|j: int| 0 <= j < i ==> ascii_fold_eq(#[trigger] s@[j], lower@[j]),
        decreases n - i,
    {
        let c = s.get_char(i);
        let l = lower.get_char(i);
        if !(c == l || ('A' <= c && c <= 'Z' && c as u32 + 32 == l as u32)) {
            return false;
        }
        i = i + 1;
    }
    true
}

/// The image extensions recognised, in lower case.
pub open spec fn image_extensions() -> Seq<Seq<char>> {
    seq!["jpg"@, "jpeg"@, "png"@, "gif"@, "bmp"@, "tiff"@, "webp"@]
}

/// Whether `path` names a file whose extension is an image extension,
/// compared without ASCII case.
pub fn is_image_file(path: &str) -> (r: bool)
    ensures
        r == (file_name_spec(path@).is_some()
            && extension_spec(file_name_spec(path@).unwrap()).is_some()
            && exists|k: int| 0 <= k < image_extensions().len()
                && eq_ignore_case(extension_spec(file_name_spec(path@).unwrap()).unwrap(), #[trigger] image_extensions()[k])),
{
    let name = match get_dir_name(path) {
        None => {
            return false;
        },
        Some(n) => n,
    };
    let k = match last_dot_of(name.as_str()) {
        Some(k) => k,
        None => {
            return false;
        },
    };
    if k == 0 {
        return false;
    }
    let n = name.as_str().unicode_len();
    let ext = name.as_str().substring_char(k + 1, n);
    let exts = ["jpg", "jpeg", "png", "gif", "bmp", "tiff", "webp"];
    let ghost all = image_extensions();
    assert(extension_spec(file_name_spec(path@).unwrap()) == Some(ext@));
    let mut j: usize = 0;
    while j < 7
        invariant
            j <= 7,
            file_name_spec(path@).is_some(),
            extension_spec(file_name_spec(path@).unwrap()) == Some(ext@),
            all == image_extensions(),
            exts@.len() == 7,
            forall|m: int| 0 <= m < 7 ==> #[trigger] exts@[m]@ == all[m],
            forall|m: int| 0 <= m < j ==> !eq_ignore_case(ext@, #[trigger] all[m]),
        decreases 7 - j,
    {
        if eq_ignore_case_exec(ext, exts[j]) {
            assert(eq_ignore_case(ext@, image_extensions()[j as int]));
            return true;
        }
        j = j + 1;
    }
    false
}

} // verus!
