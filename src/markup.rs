//! Extraction of structured fields from page markup.
use vstd::prelude::*;

verus! {

/// For each element of the document `html` that `block` matches, in document
/// order: the inner markup and attribute `attr` of each element inside it
/// that `item` matches. `None` when a selector is not valid.
pub uninterp spec fn blocks_of(html: Seq<char>, block: Seq<char>, item: Seq<char>, attr: Seq<char>) -> Option<Seq<Seq<(Seq<char>, Option<Seq<char>>)>>>;

pub open spec fn opt_view(o: Option<String>) -> Option<Seq<char>> {
    match o {
        Some(s) => Some(s@),
        None => None,
    }
}

pub open spec fn picked_views(v: Seq<(String, Option<String>)>) -> Seq<(Seq<char>, Option<Seq<char>>)> {
    v.map_values(|p: (String, Option<String>)| (p.0@, opt_view(p.1)))
}

pub open spec fn block_views(v: Seq<Vec<(String, Option<String>)>>) -> Seq<Seq<(Seq<char>, Option<Seq<char>>)>> {
    v.map_values(|b: Vec<(String, Option<String>)>| picked_views(b@))
}

/// Relies on scraper's `Html::parse_document`, `Selector::parse`,
/// `Html::select`, `ElementRef::select`, `ElementRef::inner_html` and
/// `ElementRef::attr`: per matched block, the matched items inside it.
#[verifier::external_body]
pub(crate) fn select_blocks(html: &str, block: &str, item: &str, attr: &str) -> (r: Option<Vec<Vec<(String, Option<String>)>>>)
    ensures
        match r {
            Some(v) => blocks_of(html@, block@, item@, attr@) == Some(block_views(v@)),
            None => blocks_of(html@, block@, item@, attr@).is_none(),
        },
{
    let doc = scraper::Html::parse_document(html);
    let bsel = scraper::Selector::parse(block).ok()?;
    let isel = scraper::Selector::parse(item).ok()?;
    Some(doc.select(&bsel).map(|b| b.select(&isel).map(|e| (e.inner_html(), e.attr(attr).map(|a| a.to_string()))).collect()).collect())
}

/// Selector of the document's root element.
pub const ROOT: &'static str = ":root";

/// For each element of the document `html` that `selector` matches, in
/// document order: its inner markup and attribute `attr`. These are the items
/// inside the document's single root element; `None` when a selector is not
/// valid (or the document does not have exactly one root).
pub open spec fn picked_of(html: Seq<char>, selector: Seq<char>, attr: Seq<char>) -> Option<Seq<(Seq<char>, Option<Seq<char>>)>> {
    match blocks_of(html, ROOT@, selector, attr) {
        Some(b) => if b.len() == 1 { Some(b[0]) } else { None },
        None => None,
    }
}

/// The items of the document `html` that `selector` matches (see `picked_of`).
pub fn select_picked(html: &str, selector: &str, attr: &str) -> (r: Option<Vec<(String, Option<String>)>>)
    ensures
        match r {
            Some(v) => picked_of(html@, selector@, attr@) == Some(picked_views(v@)),
            None => picked_of(html@, selector@, attr@).is_none(),
        },
{
    match select_blocks(html, ROOT, selector, attr) {
        Some(mut blocks) => {
            if blocks.len() == 1 {
                let ghost before = blocks@;
                let only = blocks.pop().unwrap();
                assert(only == before[0]);
                assert(block_views(before)[0] == picked_views(only@));
                Some(only)
            } else {
                None
            }
        },
        None => None,
    }
}

} // verus!
