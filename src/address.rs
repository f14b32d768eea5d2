//! Source addresses: query parameters and the site's second-level domain.
use vstd::prelude::*;
use crate::text::{split_spec, split_string, views};

verus! {

/// The query pairs, decoded, of `url` as the `url` crate parses it; `None`
/// when it does not parse.
pub uninterp spec fn query_pairs_of(url: Seq<char>) -> Option<Seq<(Seq<char>, Seq<char>)>>;

/// The host of `url` as the `url` crate parses it; `None` when it does not
/// parse or has no host.
pub uninterp spec fn host_of(url: Seq<char>) -> Option<Seq<char>>;

pub open spec fn pair_views(v: Seq<(String, String)>) -> Seq<(Seq<char>, Seq<char>)> {
    v.map_values(|p: (String, String)| (p.0@, p.1@))
}

/// Relies on `url::Url::parse`, `url::Url::host_str` and
/// `url::Url::query_pairs`: the host and the decoded name/value pairs of the
/// query, in order, of the parsed address.
#[verifier::external_body]
fn parse_url(url: &str) -> (r: Option<(Option<String>, Vec<(String, String)>)>)
    ensures
        match r {
            Some((h, q)) => {
                &&& host_of(url@) == crate::markup::opt_view(h)
                &&& query_pairs_of(url@) == Some(pair_views(q@))
            },
            None => host_of(url@).is_none() && query_pairs_of(url@).is_none(),
        },
{
    let parsed = url::Url::parse(url).ok()?;
    let host = parsed.host_str().map(|h| h.to_string());
    Some((host, parsed.query_pairs().map(|(k, v)| (k.into_owned(), v.into_owned())).collect()))
}

/// The value of the first pair of `pairs` named `key`, if any.
pub open spec fn first_value(pairs: Seq<(Seq<char>, Seq<char>)>, key: Seq<char>) -> Option<Seq<char>>
    decreases pairs.len(),
{
    if pairs.len() == 0 {
        None
    } else if pairs[0].0 == key {
        Some(pairs[0].1)
    } else {
        first_value(pairs.drop_first(), key)
    }
}

/// The value of the query parameter `key` in `url`: empty when the address
/// does not parse or has no such parameter.
pub open spec fn query_value(url: Seq<char>, key: Seq<char>) -> Seq<char> {
    match query_pairs_of(url) {
        Some(pairs) => match first_value(pairs, key) {
            Some(v) => v,
            None => Seq::empty(),
        },
        None => Seq::empty(),
    }
}

/// The value of the first pair of `pairs` named `key`.
pub fn lookup_query(pairs: &Vec<(String, String)>, key: &str) -> (r: Option<String>)
    ensures
        match r {
            Some(v) => first_value(pair_views(pairs@), key@) == Some(v@),
            None => first_value(pair_views(pairs@), key@).is_none(),
        },
{
    let ghost all = pair_views(pairs@);
    assert(all.subrange(0, all.len() as int) =~= all);
    let mut i: usize = 0;
    while i < pairs.len()
        invariant
            i <= pairs@.len(),
            all == pair_views(pairs@),
            first_value(all, key@) == first_value(all.subrange(i as int, all.len() as int), key@),
        decreases pairs@.len() - i,
    {
        proof {
            assert(all.subrange(i as int, all.len() as int).drop_first() =~= all.subrange(i + 1, all.len() as int));
        }
        if crate::text::str_eq(pairs[i].0.as_str(), key) {
            return Some(pairs[i].1.clone());
        }
        i = i + 1;
    }
    proof {
        assert(all.subrange(i as int, all.len() as int).len() == 0);
    }
    None
}

/// The value of the first query parameter of `url_str` named `key`; empty
/// when there is none or the address does not parse.
pub fn get_url_query(url_str: &str, key: &str) -> (r: String)
    ensures
        r@ == query_value(url_str@, key@),
{
    match parse_url(url_str) {
        None => String::new(),
        Some((_, pairs)) => match lookup_query(&pairs, key) {
            Some(v) => v,
            None => String::new(),
        },
    }
}

/// The second-to-last label of `host`, when it has at least two.
pub open spec fn second_level(host: Seq<char>) -> Option<Seq<char>> {
    let parts = split_spec(host, seq!['.']);
    if parts.len() >= 2 {
        Some(parts[parts.len() - 2])
    } else {
        None
    }
}

/// The second-to-last dot-separated label of `host`, when it has two or more.
pub fn second_level_of_host(host: &str) -> (r: Option<String>)
    ensures
        match r {
            Some(v) => second_level(host@) == Some(v@),
            None => second_level(host@).is_none(),
        },
{
    let dot = ".";
    proof {
        reveal_strlit(".");
        assert(dot@ =~= seq!['.']);
    }
    let parts = split_string(host, dot);
    let n = parts.len();
    if n >= 2 {
        proof {
            assert(views(parts@)[n - 2] == parts@[n - 2]@);
        }
        Some(parts[n - 2].clone())
    } else {
        None
    }
}

/// The second-level domain of `url_str` ("antbyw" for
/// "https://www.antbyw.com/..."); `None` when the address does not parse, has
/// no host, or the host has a single label.
pub fn get_second_level_domain(url_str: &str) -> (r: Option<String>)
    ensures
        r.is_some() <==> (host_of(url_str@).is_some() && second_level(host_of(url_str@).unwrap()).is_some()),
        r.is_some() ==> r.unwrap()@ == second_level(host_of(url_str@).unwrap()).unwrap(),
{
    match parse_url(url_str) {
        Some((Some(host), _)) => second_level_of_host(host.as_str()),
        _ => None,
    }
}

} // verus!
