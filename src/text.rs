//! Text helpers: leading numbers, splitting and joining.
use vstd::prelude::*;

verus! {

pub open spec fn is_digit(c: char) -> bool {
    '0' <= c && c <= '9'
}

pub open spec fn digit_value(c: char) -> nat {
    (c as nat - '0' as nat) as nat
}

/// The number a string of decimal digits writes.
pub open spec fn digits_value(s: Seq<char>) -> nat
    decreases s.len(),
{
    if s.len() == 0 {
        0
    } else {
        digits_value(s.drop_last()) * 10 + digit_value(s.last())
    }
}

/// Position of the first digit of `s` at or after `i` (the length when none).
pub open spec fn skip_non_digits(s: Seq<char>, i: int) -> int
    decreases s.len() - i,
{
    if i < 0 || i >= s.len() {
        s.len() as int
    } else if is_digit(s[i]) {
        i
    } else {
        skip_non_digits(s, i + 1)
    }
}

/// End of the run of digits of `s` that starts at `i`.
pub open spec fn skip_digits(s: Seq<char>, i: int) -> int
    decreases s.len() - i,
{
    if i < 0 || i >= s.len() {
        s.len() as int
    } else if !is_digit(s[i]) {
        i
    } else {
        skip_digits(s, i + 1)
    }
}

/// The first run of decimal digits in `s` (empty when `s` has no digit).
pub open spec fn first_digit_run(s: Seq<char>) -> Seq<char> {
    let a = skip_non_digits(s, 0);
    s.subrange(a, skip_digits(s, a))
}

/// The number that the first run of digits of `s` writes; 0 when there is no
/// digit or the number does not fit in 32 bits.
pub open spec fn leading_number(s: Seq<char>) -> u32 {
    let v = digits_value(first_digit_run(s));
    if v <= u32::MAX {
        v as u32
    } else {
        0
    }
}

proof fn lemma_skip_digits_bounds(s: Seq<char>, i: int)
    requires
        0 <= i <= s.len(),
    ensures
        i <= skip_digits(s, i) <= s.len(),
    decreases s.len() - i,
{
    if i < s.len() && is_digit(s[i]) {
        lemma_skip_digits_bounds(s, i + 1);
    }
}

/// Extracts the number written by the first run of decimal digits of `input`:
/// `Some(0)` when there is none or it does not fit in 32 bits.
pub fn extract_number_manual(input: &str) -> (r: Option<u32>)
    ensures
        r == Some(leading_number(input@)),
{
    let n = input.unicode_len();
    let ghost s = input@;
    let mut i: usize = 0;
    let mut found = false;
    while i < n && !found
        invariant
            n == s.len(),
            s == input@,
            i <= n,
            found ==> i < n && is_digit(s[i as int]),
            skip_non_digits(s, i as int) == skip_non_digits(s, 0),
        decreases n - i + if found { 0int } else { 1int },
    {
        let c = input.get_char(i);
        if '0' <= c && c <= '9' {
            found = true;
        } else {
            i = i + 1;
        }
    }
    let start = i;
    proof {
        assert(skip_non_digits(s, start as int) == start);
        lemma_skip_digits_bounds(s, start as int);
    }
    let mut value: u64 = 0;
    let mut overflow = false;
    let mut ended = false;
    while i < n && !ended
        invariant
            n == s.len(),
            s == input@,
            start == skip_non_digits(s, 0),
            start <= i <= n,
            ended ==> i < n && !is_digit(s[i as int]),
            skip_digits(s, i as int) == skip_digits(s, start as int),
            forall|k: int| start <= k < i ==> is_digit(#[trigger] s[k]),
            !overflow ==> value == digits_value(s.subrange(start as int, i as int)),
            !overflow ==> value <= u32::MAX,
            overflow ==> digits_value(s.subrange(start as int, i as int)) > u32::MAX,
        decreases n - i + if ended { 0int } else { 1int },
    {
        let c = input.get_char(i);
        if !('0' <= c && c <= '9') {
            ended = true;
        } else {
            proof {
                let p = s.subrange(start as int, i + 1);
                assert(p.drop_last() =~= s.subrange(start as int, i as int));
                assert(p.last() == c);
            }
            if !overflow {
                let d = (c as u32 - '0' as u32) as u64;
                let next = value * 10 + d;
                if next > 4294967295 {
                    overflow = true;
                } else {
                    value = next;
                }
            } else {
                proof {
                    let p = s.subrange(start as int, i + 1);
                    assert(digits_value(p) >= digits_value(p.drop_last()) * 10);
                }
            }
            i = i + 1;
        }
    }
    proof {
        assert(skip_digits(s, i as int) == i);
        assert(first_digit_run(s) =~= s.subrange(start as int, i as int));
    }
    if overflow {
        Some(0)
    } else {
        Some(value as u32)
    }
}

/// The pieces of `s[start..]` split on the non-empty `d`, scanning from `i`:
/// the piece being built starts at `start`, and `d` has not been seen in
/// `s[start..i]`.
pub open spec fn split_from(s: Seq<char>, d: Seq<char>, start: int, i: int) -> Seq<Seq<char>>
    decreases s.len() - i,
{
    if d.len() == 0 || i < start || start < 0 || i + d.len() > s.len() {
        seq![s.subrange(start, s.len() as int)]
    } else if s.subrange(i, i + d.len()) == d {
        seq![s.subrange(start, i)] + split_from(s, d, i + d.len(), i + d.len())
    } else {
        split_from(s, d, start, i + 1)
    }
}

/// The pieces of `s` separated by `d`, as `str::split` gives them: for an
/// empty `d`, an empty piece, each character, and an empty piece.
pub open spec fn split_spec(s: Seq<char>, d: Seq<char>) -> Seq<Seq<char>> {
    if d.len() == 0 {
        seq![Seq::<char>::empty()] + s.map_values(|c: char| seq![c]) + seq![Seq::<char>::empty()]
    } else {
        split_from(s, d, 0, 0)
    }
}

pub open spec fn views(v: Seq<String>) -> Seq<Seq<char>> {
    v.map_values(|x: String| x@)
}

/// Whether `d` occurs in `s` at `i`.
fn occurs_at(s: &str, d: &str, i: usize, n: usize, m: usize) -> (r: bool)
    requires
        n == s@.len(),
        m == d@.len(),
        i + m <= n,
    ensures
        r == (s@.subrange(i as int, i + m) == d@),
{
    let mut k: usize = 0;
    while k < m
        invariant
            n == s@.len(),
            m == d@.len(),
            i + m <= n,
            k <= m,
            forall|j: int| 0 <= j < k ==> s@[i + j] == d@[j],
        decreases m - k,
    {
        if s.get_char(i + k) != d.get_char(k) {
            assert(s@.subrange(i as int, i + m)[k as int] != d@[k as int]);
            return false;
        }
        k = k + 1;
    }
    assert(s@.subrange(i as int, i + m) =~= d@);
    true
}

/// Splits `input` on `delimiter`, as `str::split` does.
pub fn split_string(input: &str, delimiter: &str) -> (r: Vec<String>)
    ensures
        views(r@) == split_spec(input@, delimiter@),
{
    let n = input.unicode_len();
    let m = delimiter.unicode_len();
    let mut r: Vec<String> = Vec::new();
    if m == 0 {
        r.push(String::new());
        let mut i: usize = 0;
        while i < n
            invariant
                n == input@.len(),
                m == 0,
                i <= n,
                views(r@) == seq![Seq::<char>::empty()] + input@.subrange(0, i as int).map_values(|c: char| seq![c]),
            decreases n - i,
        {
            let piece = input.substring_char(i, i + 1).to_owned();
            let ghost before = r@;
            r.push(piece);
            proof {
                assert(piece@ =~= seq![input@[i as int]]);
                assert(views(r@) =~= views(before).push(piece@));
                assert(input@.subrange(0, i + 1).map_values(|c: char| seq![c]) =~= input@.subrange(0, i as int).map_values(|c: char| seq![c]).push(seq![input@[i as int]]));
            }
            i = i + 1;
        }
        let ghost before = r@;
        r.push(String::new());
        proof {
            assert(input@.subrange(0, n as int) =~= input@);
            assert(views(r@) =~= views(before).push(Seq::<char>::empty()));
            assert(views(r@) =~= split_spec(input@, delimiter@));
        }
        return r;
    }
    let mut start: usize = 0;
    let mut i: usize = 0;
    while m <= n && i <= n - m
        invariant
            n == input@.len(),
            m == delimiter@.len(),
            m > 0,
            start <= i <= n,
            views(r@) + split_from(input@, delimiter@, start as int, i as int) == split_spec(input@, delimiter@),
        decreases n - i,
    {
        if occurs_at(input, delimiter, i, n, m) {
            let piece = input.substring_char(start, i).to_owned();
            let ghost before = r@;
            r.push(piece);
            proof {
                assert(views(r@) =~= views(before).push(piece@));
                assert(views(r@) + split_from(input@, delimiter@, (i + m) as int, (i + m) as int)
                    =~= views(before) + split_from(input@, delimiter@, start as int, i as int));
            }
            start = i + m;
            i = i + m;
        } else {
            i = i + 1;
        }
    }
    let piece = input.substring_char(start, n).to_owned();
    let ghost before = r@;
    r.push(piece);
    proof {
        assert(views(r@) =~= views(before).push(piece@));
        assert(views(r@) =~= views(before) + split_from(input@, delimiter@, start as int, i as int));
    }
    r
}

/// `parts` joined with `d` between consecutive parts.
pub open spec fn join_spec(parts: Seq<Seq<char>>, d: Seq<char>) -> Seq<char>
    decreases parts.len(),
{
    if parts.len() == 0 {
        Seq::empty()
    } else if parts.len() == 1 {
        parts[0]
    } else {
        join_spec(parts.drop_last(), d) + d + parts.last()
    }
}

pub open spec fn str_views(v: Seq<&str>) -> Seq<Seq<char>> {
    v.map_values(|x: &str| x@)
}

/// Joins `strings` with `delimiter` between consecutive ones.
pub fn join_strings(strings: Vec<&str>, delimiter: &str) -> (r: String)
    ensures
        r@ == join_spec(str_views(strings@), delimiter@),
{
    let mut r = String::new();
    let mut i: usize = 0;
    while i < strings.len()
        invariant
            i <= strings@.len(),
            r@ == join_spec(str_views(strings@.subrange(0, i as int)), delimiter@),
        decreases strings@.len() - i,
    {
        proof {
            let p = str_views(strings@.subrange(0, i + 1));
            assert(p.drop_last() =~= str_views(strings@.subrange(0, i as int)));
            assert(p.last() == strings@[i as int]@);
            if i == 0 {
                assert(p =~= seq![strings@[0]@]);
            }
        }
        if i > 0 {
            r.append(delimiter);
        }
        r.append(strings[i]);
        i = i + 1;
    }
    assert(strings@.subrange(0, i as int) =~= strings@);
    r
}

/// Whether `a` and `b` hold the same characters.
pub fn str_eq(a: &str, b: &str) -> (r: bool)
    ensures
        r == (a@ == b@),
{
    let n = a.unicode_len();
    let m = b.unicode_len();
    if n != m {
        return false;
    }
    let mut k: usize = 0;
    while k < n
        invariant
            n == a@.len(),
            m == b@.len(),
            n == m,
            k <= n,
            forall|j: int| 0 <= j < k ==> a@[j] == b@[j],
        decreases n - k,
    {
        if a.get_char(k) != b.get_char(k) {
            return false;
        }
        k = k + 1;
    }
    assert(a@ =~= b@);
    true
}

} // verus!
