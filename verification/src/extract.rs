//! The markup-facing edge of the extractor.  The element queries come from
//! the `scraper` crate and are trusted; what each query returns is a function
//! of the markup characters alone, so each result carries a name that the
//! pipeline's contracts speak of.  Everything computed from the returned
//! plain values is verified in the crate root.
use vstd::prelude::*;

use crate::text::pair_views;

verus! {

pub uninterp spec fn tooltip_pairs_of(s: Seq<char>) -> Seq<(Seq<char>, Seq<char>)>;

pub uninterp spec fn day_cell_pairs_of(s: Seq<char>) -> Seq<(Seq<char>, Seq<char>)>;

pub uninterp spec fn heading_text_of(s: Seq<char>) -> Option<Seq<char>>;

/// Relies on `scraper::Html::parse_document` (parsing does not fail; errors
/// are collected inside the tree), `Selector::parse` on a fixed valid
/// selector, and `Html::select`: hands out, in document order, the `for`
/// attribute and the trimmed concatenated text of every `tool-tip` element
/// that has that attribute.  The result depends on the markup alone.
#[verifier::external_body]
pub(crate) fn tooltip_entries(markup: &str) -> (r: Vec<(String, String)>)
    ensures
        pair_views(r@) == tooltip_pairs_of(markup@),
{
    let doc = scraper::Html::parse_document(markup);
    let sel = scraper::Selector::parse("tool-tip").unwrap();
    doc.select(&sel).filter_map(
        |el|
            el.value().attr("for").map(
                |id| (id.to_string(), el.text().collect::<String>().trim().to_string()),
            ),
    ).collect()
}

/// Relies on `scraper::Html::parse_document`, `Selector::parse` on a fixed
/// valid selector, and `Html::select`: hands out, in document order, the
/// `data-date` and `id` attributes (empty when absent) of every
/// `td.ContributionCalendar-day` element.  The result depends on the markup
/// alone.
#[verifier::external_body]
pub(crate) fn day_cell_entries(markup: &str) -> (r: Vec<(String, String)>)
    ensures
        pair_views(r@) == day_cell_pairs_of(markup@),
{
    let doc = scraper::Html::parse_document(markup);
    let sel = scraper::Selector::parse("td.ContributionCalendar-day").unwrap();
    doc.select(&sel).map(
        |el|
            (
                el.value().attr("data-date").unwrap_or("").to_string(),
                el.value().attr("id").unwrap_or("").to_string(),
            ),
    ).collect()
}

/// Relies on `scraper::Html::parse_document`, `Selector::parse` on a fixed
/// valid selector, and `Html::select`: the trimmed text of the page-level
/// summary heading `h2#js-contribution-activity-description`, when the page
/// has one.  The result depends on the markup alone.
#[verifier::external_body]
pub(crate) fn summary_heading_text(markup: &str) -> (r: Option<String>)
    ensures
        match r {
            Some(t) => heading_text_of(markup@) == Some(t@),
            None => heading_text_of(markup@) is None,
        },
{
    let doc = scraper::Html::parse_document(markup);
    let sel = scraper::Selector::parse("h2#js-contribution-activity-description").unwrap();
    doc.select(&sel).next().map(|el| el.text().collect::<String>().trim().to_string())
}

} // verus!
