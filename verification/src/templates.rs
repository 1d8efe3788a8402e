//! The fully-computed data handed to the presentation layer.  Rendering to
//! markup is a mechanical transcription done outside the library.
use vstd::prelude::*;

use crate::ContributionStats;
use crate::text::dec_of;
use crate::text::push_dec;

verus! {

/// One colored, positioned, hover-labeled cell of the calendar grid.
#[derive(Debug, PartialEq)]
pub struct GraphCell {
    pub date: String,
    pub count: u32,
    pub col: usize,
    pub row: usize,
    pub color: String,
    pub hover_text: String,
}

/// The quartile values written in decimal and joined by `sep`.
pub open spec fn joined_counts(q: Seq<u32>, sep: Seq<char>) -> Seq<char>
    decreases q.len(),
{
    if q.len() == 0 {
        Seq::empty()
    } else if q.len() == 1 {
        dec_of(q[0] as int)
    } else {
        joined_counts(q.drop_last(), sep) + sep + dec_of(q.last() as int)
    }
}

/// Join the five quartile values with a separator.
pub fn join_counts(q: &[u32; 5], sep: &str) -> (r: String)
    ensures
        r@ == joined_counts(q@, sep@),
{
    let mut out = String::new();
    let mut i: usize = 0;
    proof {
        assert(q@.take(0) =~= Seq::<u32>::empty());
    }
    while i < 5
        invariant
            i <= 5,
            q@.len() == 5,
            out@ == joined_counts(q@.take(i as int), sep@),
        decreases 5 - i,
    {
        if i > 0 {
            out.append(sep);
        }
        push_dec(&mut out, q[i] as u64);
        proof {
            assert(q@.take(i + 1).drop_last() =~= q@.take(i as int));
            assert(q@.take(i + 1).last() == q@[i as int]);
            if i == 0 {
                assert(out@ =~= joined_counts(q@.take(1), sep@));
            } else {
                assert(out@ =~= joined_counts(q@.take(i + 1), sep@));
            }
        }
        i = i + 1;
    }
    proof {
        assert(q@.take(5) =~= q@);
    }
    out
}

/// Data behind the textual statistics view.
pub struct ContributionStatsTemplate {
    pub stats: ContributionStats,
    pub show_quartiles: bool,
    pub quartiles_string: String,
}

impl ContributionStatsTemplate {
    /// Assemble the view data; the quartile line is space-separated.
    pub fn new(stats: ContributionStats, show_quartiles: bool) -> (r: ContributionStatsTemplate)
        ensures
            r.stats == stats,
            r.show_quartiles == show_quartiles,
            r.quartiles_string@ == joined_counts(stats.quartiles@, " "@),
    {
        let quartiles_string = join_counts(&stats.quartiles, " ");
        ContributionStatsTemplate { stats, show_quartiles, quartiles_string }
    }

    /// The quartile values joined by a comma and a space.
    pub fn quartiles_display(&self) -> (r: String)
        ensures
            r@ == joined_counts(self.stats.quartiles@, ", "@),
    {
        join_counts(&self.stats.quartiles, ", ")
    }
}

/// Data behind the vector-graphic calendar view.
pub struct ContributionSvgGraphTemplate {
    pub stats: ContributionStats,
    pub max_count: u32,
    pub cells: Vec<GraphCell>,
    pub show_months: bool,
    pub svg_height: String,
    pub font_size: String,
    pub show_weekdays: bool,
    pub primary_color: String,
    pub color_shades: Vec<String>,
    pub month_labels: Vec<(usize, String)>,
    pub weekday_labels: Vec<(usize, String)>,
    pub cell_radius: u32,
}

/// Data behind the markup view that embeds the vector graphic.
pub struct ContributionGraphHtmlTemplate {
    pub svg: ContributionSvgGraphTemplate,
    pub quartiles: String,
}

impl ContributionGraphHtmlTemplate {
    /// Wrap a computed graph; the quartile line is space-separated.
    pub fn new(svg: ContributionSvgGraphTemplate) -> (r: ContributionGraphHtmlTemplate)
        ensures
            r.svg == svg,
            r.quartiles@ == joined_counts(svg.stats.quartiles@, " "@),
    {
        let quartiles = join_counts(&svg.stats.quartiles, " ");
        ContributionGraphHtmlTemplate { svg, quartiles }
    }

    /// The quartile values joined by a comma and a space.
    pub fn quartiles_display(&self) -> (r: String)
        ensures
            r@ == joined_counts(self.svg.stats.quartiles@, ", "@),
    {
        join_counts(&self.svg.stats.quartiles, ", ")
    }
}

} // verus!
