//! User settings, an error message type, and the progress event.
use vstd::prelude::*;
use crate::task::TaskStatus;
use crate::text::{digit_value, digits_value, is_digit};

verus! {

/// A message describing a failure.
#[derive(Debug)]
pub struct ErrorMsg {
    pub msg: String,
}

impl ErrorMsg {
    /// A message holding `msg`.
    pub fn new(msg: &str) -> (r: ErrorMsg)
        ensures
            r.msg@ == msg@,
    {
        ErrorMsg { msg: msg.to_owned() }
    }

    /// The text of the message.
    pub fn to_string(&self) -> (r: String)
        ensures
            r@ == self.msg@,
    {
        self.msg.clone()
    }
}

/// The number `s` writes in decimal, with an optional leading '+', when it is
/// all digits and fits in 64 bits.
pub open spec fn parse_count_spec(s: Seq<char>) -> Option<u64> {
    let d = unsigned_part(s);
    if d.len() > 0 && all_digits(d) && digits_value(d) <= u64::MAX {
        Some(digits_value(d) as u64)
    } else {
        None
    }
}

/// `s` without a leading '+'.
pub open spec fn unsigned_part(s: Seq<char>) -> Seq<char> {
    if s.len() > 0 && s[0] == '+' { s.drop_first() } else { s }
}

pub open spec fn all_digits(d: Seq<char>) -> bool {
    forall|i: int| 0 <= i < d.len() ==> is_digit(#[trigger] d[i])
}

/// Reads a count written in decimal (an optional '+', then digits).
pub fn parse_count(s: &str) -> (r: Option<u64>)
    ensures
        r == parse_count_spec(s@),
{
    let n = s.unicode_len();
    let start: usize = if n > 0 && s.get_char(0) == '+' { 1 } else { 0 };
    let ghost d = unsigned_part(s@);
    proof {
        assert(d =~= s@.subrange(start as int, n as int));
    }
    if start >= n {
        assert(d.len() == 0);
        return None;
    }
    let mut value: u64 = 0;
    let mut i: usize = start;
    while i < n
        invariant
            n == s@.len(),
            start <= i <= n,
            d == s@.subrange(start as int, n as int),
            d == unsigned_part(s@),
            forall|k: int| start <= k < i ==> is_digit(#[trigger] s@[k]),
            value == digits_value(s@.subrange(start as int, i as int)),
        decreases n - i,
    {
        let c = s.get_char(i);
        if !('0' <= c && c <= '9') {
            assert(d[i - start] == s@[i as int]);
            assert(!is_digit(d[i - start]));
            return None;
        }
        proof {
            let p = s@.subrange(start as int, i + 1);
            assert(p.drop_last() =~= s@.subrange(start as int, i as int));
        }
        let digit = (c as u32 - '0' as u32) as u64;
        match value.checked_mul(10) {
            None => {
                proof {
                    lemma_digits_grow(d, i - start + 1);
                    assert(s@.subrange(start as int, i + 1) =~= d.subrange(0, i - start + 1));
                }
                return None;
            },
            Some(v10) => match v10.checked_add(digit) {
                None => {
                    proof {
                        lemma_digits_grow(d, i - start + 1);
                        assert(s@.subrange(start as int, i + 1) =~= d.subrange(0, i - start + 1));
                    }
                    return None;
                },
                Some(next) => {
                    value = next;
                },
            },
        }
        i = i + 1;
    }
    proof {
        assert(s@.subrange(start as int, i as int) =~= d);
    }
    Some(value)
}

/// The value of a prefix of a run of digits is at most the value of the run.
proof fn lemma_digits_grow(d: Seq<char>, k: int)
    requires
        0 <= k <= d.len(),
    ensures
        digits_value(d.subrange(0, k)) <= digits_value(d),
    decreases d.len() - k,
{
    if k < d.len() {
        lemma_digits_grow(d, k + 1);
        assert(d.subrange(0, k + 1).drop_last() =~= d.subrange(0, k));
    } else {
        assert(d.subrange(0, k) =~= d);
    }
}

proof fn lemma_one_digit(s: Seq<char>)
    requires
        s.len() == 1,
        is_digit(s[0]),
    ensures
        digits_value(s) == digit_value(s[0]),
{
    assert(s.drop_last() =~= Seq::<char>::empty());
    assert(digits_value(s.drop_last()) == 0);
    assert(s.last() == s[0]);
}

/// The user's settings, as text, the way the settings dialog edits them.
#[derive(Clone, Debug)]
pub struct Setting {
    pub download_dir: String,
    pub concurrent_task: String,
    pub concurrent_img: String,
    pub img_timeout: String,
    pub img_retry_count: String,
}

/// Default bound on tasks downloading at once.
pub const DEFAULT_CONCURRENT_TASK: u64 = 1;

/// Default bound on transfers at once within a task.
pub const DEFAULT_CONCURRENT_IMG: u64 = 10;

/// Default seconds allowed for one image fetch.
pub const DEFAULT_IMG_TIMEOUT: u64 = 5;

/// Default number of retries of a failed image fetch.
pub const DEFAULT_IMG_RETRY_COUNT: u64 = 3;

pub open spec fn or_default(v: Option<u64>, d: u64) -> u64 {
    match v {
        Some(x) => x,
        None => d,
    }
}

impl Setting {
    /// The defaults, downloading to `download_dir`.
    pub fn defaults(download_dir: String) -> (r: Setting)
        ensures
            r.download_dir == download_dir,
            parse_count_spec(r.concurrent_task@) == Some(DEFAULT_CONCURRENT_TASK),
            parse_count_spec(r.concurrent_img@) == Some(DEFAULT_CONCURRENT_IMG),
            parse_count_spec(r.img_timeout@) == Some(DEFAULT_IMG_TIMEOUT),
            parse_count_spec(r.img_retry_count@) == Some(DEFAULT_IMG_RETRY_COUNT),
    {
        proof {
            reveal_strlit("1");
            reveal_strlit("10");
            reveal_strlit("5");
            reveal_strlit("3");
            lemma_one_digit("1"@);
            lemma_one_digit("5"@);
            lemma_one_digit("3"@);
            assert("10"@.drop_last() =~= seq!['1']);
            lemma_one_digit(seq!['1']);
            assert(digits_value("10"@) == 10);
        }
        Setting {
            download_dir,
            concurrent_task: "1".to_owned(),
            concurrent_img: "10".to_owned(),
            img_timeout: "5".to_owned(),
            img_retry_count: "3".to_owned(),
        }
    }

    /// Bound on tasks downloading at once (default when unreadable).
    pub fn task_limit(&self) -> (r: u64)
        ensures
            r == or_default(parse_count_spec(self.concurrent_task@), DEFAULT_CONCURRENT_TASK),
    {
        match parse_count(self.concurrent_task.as_str()) {
            Some(v) => v,
            None => DEFAULT_CONCURRENT_TASK,
        }
    }

    /// Bound on transfers at once within a task (default when unreadable).
    pub fn image_limit(&self) -> (r: u64)
        ensures
            r == or_default(parse_count_spec(self.concurrent_img@), DEFAULT_CONCURRENT_IMG),
    {
        match parse_count(self.concurrent_img.as_str()) {
            Some(v) => v,
            None => DEFAULT_CONCURRENT_IMG,
        }
    }

    /// Seconds allowed for one image fetch (default when unreadable).
    pub fn timeout_secs(&self) -> (r: u64)
        ensures
            r == or_default(parse_count_spec(self.img_timeout@), DEFAULT_IMG_TIMEOUT),
    {
        match parse_count(self.img_timeout.as_str()) {
            Some(v) => v,
            None => DEFAULT_IMG_TIMEOUT,
        }
    }

    /// Retries of a failed image fetch (default when unreadable).
    pub fn retry_count(&self) -> (r: u64)
        ensures
            r == or_default(parse_count_spec(self.img_retry_count@), DEFAULT_IMG_RETRY_COUNT),
    {
        match parse_count(self.img_retry_count.as_str()) {
            Some(v) => v,
            None => DEFAULT_IMG_RETRY_COUNT,
        }
    }
}

/// A progress report for the UI: task, percentage text, counts, error list
/// text and status.
#[derive(Clone, Debug)]
pub struct DownloadEvent {
    pub id: i32,
    pub progress: String,
    pub count: i32,
    pub now_count: i32,
    pub error_vec: String,
    pub status: TaskStatus,
}

} // verus!
